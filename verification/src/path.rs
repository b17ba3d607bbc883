//! Hierarchical knowledge paths.
//!
//! A path is an ordered sequence of validated segments (alphanumeric, `-`,
//! `_`, `@`), or the empty root written `/`. Paths are parsed from user
//! input, are immutable values afterwards, and support segment-wise prefix
//! tests and wildcard pattern matching with `*` and `**`.

use vstd::prelude::*;

use crate::text::{is_ws_char, lemma_ltrim_range, lemma_rtrim_range, ltrim, rtrim, trim};
use crate::StoreError;

verus! {

// ---------------------------------------------------------------------------
// Characters
// ---------------------------------------------------------------------------

/// Characters allowed inside a path segment.
pub open spec fn is_seg_char(c: char) -> bool {
    let u = c as u32;
    (48 <= u && u <= 57) || (65 <= u && u <= 90) || (97 <= u && u <= 122) || u == 45 || u == 95
        || u == 64
}

/// A well-formed segment: nonempty, every character allowed.
pub open spec fn valid_seg(s: Seq<char>) -> bool {
    s.len() > 0 && forall|i: int| 0 <= i < s.len() ==> is_seg_char(#[trigger] s[i])
}

/// Every segment of the sequence is well formed.
pub open spec fn all_valid(segs: Seq<Seq<char>>) -> bool {
    forall|i: int| 0 <= i < segs.len() ==> valid_seg(#[trigger] segs[i])
}

// ---------------------------------------------------------------------------
// Splitting on `/`
// ---------------------------------------------------------------------------

/// Length of the leading slash-free run.
pub open spec fn seg_len(s: Seq<char>) -> nat
    decreases s.len(),
{
    if s.len() == 0 || s[0] == '/' {
        0
    } else {
        1 + seg_len(s.drop_first())
    }
}

proof fn lemma_seg_len_at(s: Seq<char>, k: int)
    requires
        0 <= k <= s.len(),
        forall|j: int| 0 <= j < k ==> #[trigger] s[j] != '/',
        k < s.len() ==> s[k] == '/',
    ensures
        seg_len(s) == k,
    decreases s.len(),
{
    if k == 0 {
        if s.len() > 0 {
            assert(s[0] == '/');
        }
    } else {
        assert(s[0] != '/');
        assert(s.drop_first() =~= s.skip(1));
        lemma_seg_len_at(s.skip(1), k - 1);
    }
}

proof fn lemma_seg_len_le(s: Seq<char>)
    ensures
        seg_len(s) <= s.len(),
    decreases s.len(),
{
    if s.len() == 0 || s[0] == '/' {
    } else {
        lemma_seg_len_le(s.drop_first());
    }
}

/// The nonempty `/`-separated pieces of a string, in order.
pub open spec fn split_segs(s: Seq<char>) -> Seq<Seq<char>>
    decreases s.len(),
    via split_segs_decreases
{
    if s.len() == 0 {
        Seq::empty()
    } else if s[0] == '/' {
        split_segs(s.drop_first())
    } else {
        seq![s.take(seg_len(s) as int)] + split_segs(s.skip(seg_len(s) as int))
    }
}

#[via_fn]
proof fn split_segs_decreases(s: Seq<char>) {
    if s.len() > 0 && s[0] != '/' {
        lemma_seg_len_le(s);
        assert(seg_len(s) == 1 + seg_len(s.drop_first()));
    }
}

// ---------------------------------------------------------------------------
// Parsing and rendering
// ---------------------------------------------------------------------------

/// What parsing a path string yields: `None` on empty input or a disallowed
/// character, otherwise the segments (empty for the root).
pub open spec fn spec_parse(input: Seq<char>) -> Option<Seq<Seq<char>>> {
    let t = trim(input, |c: char| is_ws_char(c));
    if t.len() == 0 {
        None
    } else {
        let u = trim(t, |c: char| c == '/');
        let segs = split_segs(u);
        if all_valid(segs) {
            Some(segs)
        } else {
            None
        }
    }
}

/// Segments joined with `/`; defined for a nonempty sequence.
pub open spec fn join_segs(segs: Seq<Seq<char>>) -> Seq<char>
    decreases segs.len(),
{
    if segs.len() <= 1 {
        segs[0]
    } else {
        segs[0] + seq!['/'] + join_segs(segs.drop_first())
    }
}

/// Canonical text of a path: `/` for the root, else the joined segments.
pub open spec fn render(segs: Seq<Seq<char>>) -> Seq<char> {
    if segs.len() == 0 {
        seq!['/']
    } else {
        join_segs(segs)
    }
}

proof fn lemma_join_snoc(segs: Seq<Seq<char>>, x: Seq<char>)
    requires
        segs.len() >= 1,
    ensures
        join_segs(segs.push(x)) == join_segs(segs) + seq!['/'] + x,
    decreases segs.len(),
{
    if segs.len() == 1 {
        let p = segs.push(x);
        assert(p[0] == segs[0]);
        assert(p.drop_first() =~= seq![x]);
        assert(join_segs(p.drop_first()) == x);
        assert(join_segs(p) =~= join_segs(segs) + seq!['/'] + x);
    } else {
        let p = segs.push(x);
        assert(p.drop_first() =~= segs.drop_first().push(x));
        lemma_join_snoc(segs.drop_first(), x);
        assert(join_segs(p) =~= join_segs(segs) + seq!['/'] + x);
    }
}

proof fn lemma_join_first_char(segs: Seq<Seq<char>>)
    requires
        segs.len() >= 1,
        all_valid(segs),
    ensures
        join_segs(segs).len() >= 1,
        join_segs(segs)[0] == segs[0][0],
        is_seg_char(join_segs(segs)[0]),
    decreases segs.len(),
{
    if segs.len() == 1 {
        assert(valid_seg(segs[0]));
    } else {
        assert(valid_seg(segs[0]));
        assert(join_segs(segs)[0] == segs[0][0]);
    }
}

proof fn lemma_join_last_char(segs: Seq<Seq<char>>)
    requires
        segs.len() >= 1,
        all_valid(segs),
    ensures
        join_segs(segs).len() >= 1,
        join_segs(segs).last() == segs.last().last(),
        is_seg_char(join_segs(segs).last()),
    decreases segs.len(),
{
    if segs.len() == 1 {
        assert(valid_seg(segs[0]));
        assert(valid_seg(segs.last()));
        assert(is_seg_char(segs.last()[segs.last().len() - 1]));
    } else {
        assert(all_valid(segs.drop_first())) by {
            assert(forall|i: int|
                0 <= i < segs.drop_first().len() ==> #[trigger] segs.drop_first()[i] == segs[i
                    + 1]);
        }
        lemma_join_last_char(segs.drop_first());
        assert(segs.drop_first().last() == segs.last());
        assert(join_segs(segs).last() == join_segs(segs.drop_first()).last());
    }
}

proof fn lemma_split_join(segs: Seq<Seq<char>>)
    requires
        segs.len() >= 1,
        all_valid(segs),
    ensures
        split_segs(join_segs(segs)) == segs,
    decreases segs.len(),
{
    let s = join_segs(segs);
    let head = segs[0];
    assert(valid_seg(head));
    if segs.len() == 1 {
        assert(s == head);
        lemma_seg_len_at(s, s.len() as int);
        assert(s.len() > 0);
        assert(s[0] != '/');
        assert(split_segs(s) == seq![s.take(seg_len(s) as int)] + split_segs(
            s.skip(seg_len(s) as int),
        ));
        assert(s.take(s.len() as int) =~= head);
        assert(s.skip(s.len() as int) =~= Seq::<char>::empty());
        assert(split_segs(Seq::<char>::empty()) == Seq::<Seq<char>>::empty());
        assert(split_segs(s) =~= seq![head]);
        assert(split_segs(s) =~= segs);
    } else {
        let rest = segs.drop_first();
        assert(all_valid(rest)) by {
            assert(forall|i: int|
                0 <= i < rest.len() ==> #[trigger] rest[i] == segs[i + 1]);
        }
        let k = head.len() as int;
        assert(s =~= head + seq!['/'] + join_segs(rest));
        lemma_join_first_char(rest);
        assert(forall|j: int| 0 <= j < k ==> #[trigger] s[j] != '/') by {
            assert(forall|j: int| 0 <= j < k ==> #[trigger] s[j] == head[j]);
            assert(forall|j: int| 0 <= j < k ==> is_seg_char(#[trigger] head[j]));
            assert(!is_seg_char('/'));
        }
        assert(s[k] == '/');
        lemma_seg_len_at(s, k);
        assert(s[0] != '/');
        assert(s.take(k) =~= head);
        assert(s.skip(k) =~= seq!['/'] + join_segs(rest));
        assert(s.skip(k).len() > 0);
        assert(s.skip(k)[0] == '/');
        assert(s.skip(k).drop_first() =~= join_segs(rest));
        lemma_split_join(rest);
        assert(split_segs(s.skip(k)) == split_segs(s.skip(k).drop_first()));
        assert(split_segs(s.skip(k)) == rest);
        assert(split_segs(s) == seq![s.take(seg_len(s) as int)] + split_segs(
            s.skip(seg_len(s) as int),
        ));
        assert(split_segs(s) =~= seq![head] + rest);
        assert(seq![head] + rest =~= segs);
    }
}

/// Parsing the canonical text of a valid segment sequence gives it back:
/// rendering is stable under re-parsing.
pub proof fn lemma_parse_render(segs: Seq<Seq<char>>)
    requires
        all_valid(segs),
    ensures
        spec_parse(render(segs)) == Some(segs),
{
    let ws = |c: char| is_ws_char(c);
    let sl = |c: char| c == '/';
    if segs.len() == 0 {
        let s = seq!['/'];
        assert(render(segs) == s);
        assert(!is_ws_char('/'));
        assert(ltrim(s, ws) == s);
        assert(rtrim(s, ws) == s);
        assert(trim(s, ws) == s);
        assert(s.drop_first() =~= Seq::<char>::empty());
        assert(ltrim(s, sl) == ltrim(s.drop_first(), sl));
        assert(ltrim(s, sl) =~= Seq::<char>::empty());
        assert(rtrim(Seq::<char>::empty(), sl) =~= Seq::<char>::empty());
        assert(trim(s, sl) =~= Seq::<char>::empty());
        assert(split_segs(trim(s, sl)) =~= Seq::<Seq<char>>::empty());
        assert(spec_parse(render(segs)) == Some(segs));
    } else {
        let s = join_segs(segs);
        lemma_join_first_char(segs);
        lemma_join_last_char(segs);
        assert(!is_ws_char(s[0])) by {
            assert(is_seg_char(s[0]));
            assert(forall|c: char| is_seg_char(c) ==> !is_ws_char(c));
        }
        assert(!is_ws_char(s.last()));
        assert(ltrim(s, ws) == s);
        assert(rtrim(s, ws) == s);
        assert(trim(s, ws) == s);
        assert(s[0] != '/');
        assert(s.last() != '/');
        assert(ltrim(s, sl) == s);
        assert(rtrim(s, sl) == s);
        assert(trim(s, sl) == s);
        lemma_split_join(segs);
        assert(spec_parse(render(segs)) == Some(segs));
    }
}

// ---------------------------------------------------------------------------
// Prefix and wildcard matching
// ---------------------------------------------------------------------------

/// Segment-wise prefix relation: `path` starts with `prefix`.
pub open spec fn spec_starts_with(path: Seq<Seq<char>>, prefix: Seq<Seq<char>>) -> bool {
    prefix.len() <= path.len() && forall|i: int|
        0 <= i < prefix.len() ==> #[trigger] path[i] == prefix[i]
}

/// Reserved top-level prefixes.
pub open spec fn spec_is_reserved(segs: Seq<Seq<char>>) -> bool {
    segs.len() > 0 && (segs[0] == "@products"@ || segs[0] == "@users"@ || segs[0] == "@repos"@
        || segs[0] == "@teams"@ || segs[0] == "@topics"@ || segs[0] == "@meta"@)
}

/// Wildcard matching over segment sequences. `**` matches zero or more
/// segments, with backtracking; `*` matches exactly one; a literal matches
/// only an equal segment.
pub open spec fn wild_match(path: Seq<Seq<char>>, pat: Seq<Seq<char>>) -> bool
    decreases path.len() + pat.len(),
{
    if pat.len() == 0 {
        path.len() == 0
    } else if pat[0] == seq!['*', '*'] {
        wild_match(path, pat.drop_first()) || (path.len() > 0 && wild_match(
            path.drop_first(),
            pat,
        ))
    } else if path.len() == 0 {
        false
    } else if pat[0] == seq!['*'] {
        wild_match(path.drop_first(), pat.drop_first())
    } else {
        path[0] == pat[0] && wild_match(path.drop_first(), pat.drop_first())
    }
}

/// Executable wildcard matcher over the tails starting at `pi` and `qi`.
#[verifier::rlimit(30)]
fn match_from(path: &Vec<String>, pi: usize, pat: &Vec<String>, qi: usize) -> (r: bool)
    requires
        pi <= path@.len(),
        qi <= pat@.len(),
    ensures
        r == wild_match(
            path@.map_values(|x: String| x@).skip(pi as int),
            pat@.map_values(|x: String| x@).skip(qi as int),
        ),
    decreases path@.len() - pi + (pat@.len() - qi),
{
    let ghost pv = path@.map_values(|x: String| x@);
    let ghost qv = pat@.map_values(|x: String| x@);
    proof {
        assert(pv.len() == path@.len());
        assert(qv.len() == pat@.len());
    }
    if qi == pat.len() {
        proof {
            assert(qv.skip(qi as int) =~= Seq::<Seq<char>>::empty());
            assert(pv.skip(pi as int).len() == pv.len() - pi);
        }
        return pi == path.len();
    }
    let q: &String = &pat[qi];
    proof {
        assert(q@ == qv.skip(qi as int)[0]);
        reveal_strlit("**");
        reveal_strlit("*");
        assert("**"@ =~= seq!['*', '*']);
        assert("*"@ =~= seq!['*']);
    }
    if crate::text::str_eq(q.as_str(), "**") {
        proof {
            assert(qv.skip(qi as int).drop_first() =~= qv.skip(qi + 1));
        }
        if match_from(path, pi, pat, qi + 1) {
            return true;
        }
        if pi < path.len() {
            proof {
                assert(pv.skip(pi as int).drop_first() =~= pv.skip(pi + 1));
                assert(pv.skip(pi as int).len() > 0);
            }
            return match_from(path, pi + 1, pat, qi);
        }
        proof {
            assert(pv.skip(pi as int).len() == 0);
        }
        return false;
    }
    if pi == path.len() {
        proof {
            assert(pv.skip(pi as int).len() == 0);
            assert(qv.skip(qi as int).len() > 0);
            assert(qv.skip(qi as int)[0] != seq!['*', '*']);
        }
        return false;
    }
    proof {
        assert(pv.skip(pi as int).len() > 0);
        assert(pv.skip(pi as int).drop_first() =~= pv.skip(pi + 1));
        assert(qv.skip(qi as int).drop_first() =~= qv.skip(qi + 1));
        assert(pv.skip(pi as int)[0] == path@[pi as int]@);
    }
    if crate::text::str_eq(q.as_str(), "*") {
        return match_from(path, pi + 1, pat, qi + 1);
    }
    let p: &String = &path[pi];
    if crate::text::str_eq(p.as_str(), q.as_str()) {
        match_from(path, pi + 1, pat, qi + 1)
    } else {
        false
    }
}

// ---------------------------------------------------------------------------
// The Path type
// ---------------------------------------------------------------------------

/// A knowledge path: validated segments plus their canonical text.
#[derive(Debug, Clone)]
pub struct Path {
    segments: Vec<String>,
    raw: String,
}

impl Path {
    /// The segments of this path, as character sequences.
    pub closed spec fn segs(&self) -> Seq<Seq<char>> {
        self.segments@.map_values(|s: String| s@)
    }

    /// The canonical text of this path.
    pub closed spec fn text(&self) -> Seq<char> {
        self.raw@
    }

    /// Well-formed: every segment valid, text canonical.
    pub closed spec fn wf(&self) -> bool {
        all_valid(self.segs()) && self.raw@ == render(self.segs())
    }

    /// Exposes that a well-formed path's text is its rendered segments.
    pub proof fn lemma_wf_text(&self)
        requires
            self.wf(),
        ensures
            self.text() == render(self.segs()),
            all_valid(self.segs()),
    {
    }

    /// Parse a path string: trim whitespace, strip outer slashes, split on
    /// `/`, drop empty segments, and validate every segment.
    #[verifier::loop_isolation(false)]
    #[verifier::rlimit(60)]
    pub fn parse(s: &str) -> (r: Result<Path, StoreError>)
        ensures
            match r {
                Ok(p) => p.wf() && spec_parse(s@) == Some(p.segs()),
                Err(e) => e == StoreError::InvalidPath && spec_parse(s@) is None,
            },
    {
        let ghost ws = |c: char| is_ws_char(c);
        let ghost sl = |c: char| c == '/';
        let n = s.unicode_len();

        let mut start: usize = 0;
        while start < n && is_ws(s.get_char(start))
            invariant
                0 <= start <= n,
                n == s@.len(),
                forall|j: int| 0 <= j < start ==> is_ws_char(#[trigger] s@[j]),
            decreases n - start,
        {
            start = start + 1;
        }
        let mut end: usize = n;
        while end > start && is_ws(s.get_char(end - 1))
            invariant
                start <= end <= n,
                n == s@.len(),
                forall|j: int| end <= j < n ==> is_ws_char(#[trigger] s@[j]),
            decreases end,
        {
            end = end - 1;
        }
        proof {
            lemma_ltrim_range(s@, ws, start as int);
            lemma_rtrim_range(s@.skip(start as int), ws, end - start);
            assert(trim(s@, ws) =~= s@.subrange(start as int, end as int));
        }
        if start == end {
            proof {
                assert(trim(s@, ws).len() == 0);
            }
            return Err(StoreError::InvalidPath);
        }
        let ghost t = s@.subrange(start as int, end as int);

        let mut a: usize = start;
        while a < end && s.get_char(a) == '/'
            invariant
                start <= a <= end <= n,
                n == s@.len(),
                forall|j: int| start <= j < a ==> #[trigger] s@[j] == '/',
            decreases end - a,
        {
            a = a + 1;
        }
        let mut b: usize = end;
        while b > a && s.get_char(b - 1) == '/'
            invariant
                a <= b <= end <= n,
                n == s@.len(),
                forall|j: int| b <= j < end ==> #[trigger] s@[j] == '/',
            decreases b,
        {
            b = b - 1;
        }
        proof {
            assert(forall|j: int| 0 <= j < a - start ==> #[trigger] t[j] == '/');
            assert(a < end ==> t[a - start] != '/');
            lemma_ltrim_range(t, sl, a - start);
            assert(forall|j: int|
                b - start <= j < t.len() - (a - start) ==> #[trigger] t.skip(a - start)[j - 0]
                    == s@[j + start]);
            lemma_rtrim_range(t.skip(a - start), sl, b - a);
            assert(trim(t, sl) =~= s@.subrange(a as int, b as int));
        }
        let ghost u = s@.subrange(a as int, b as int);

        let body = s.substring_char(a, b);
        let mut segments: Vec<String> = Vec::new();
        let ok = push_split_segments(body, &mut segments, true);
        if !ok {
            return Err(StoreError::InvalidPath);
        }
        let raw = render_segments(&segments);
        let p = Path { segments, raw };
        proof {
            assert(p.wf());
            assert(spec_parse(s@) == Some(p.segs()));
        }
        Ok(p)
    }

    /// The canonical text of this path; `/` for the root.
    pub fn to_string(&self) -> (r: String)
        requires
            self.wf(),
        ensures
            r@ == render(self.segs()),
            r@ == self.text(),
    {
        self.raw.clone()
    }

    /// Number of segments.
    pub fn depth(&self) -> (r: usize)
        ensures
            r == self.segs().len(),
    {
        proof {
            assert(self.segs().len() == self.segments@.len());
        }
        self.segments.len()
    }

    /// Whether this is the empty root path.
    pub fn is_root(&self) -> (r: bool)
        ensures
            r == (self.segs().len() == 0),
    {
        proof {
            assert(self.segs().len() == self.segments@.len());
        }
        self.segments.len() == 0
    }

    /// The segments of this path.
    pub fn segments(&self) -> (r: &[String])
        ensures
            r@.map_values(|x: String| x@) == self.segs(),
            r@.len() == self.segs().len(),
    {
        proof {
            assert(self.segs().len() == self.segments@.len());
        }
        self.segments.as_slice()
    }

    /// The parent path, or `None` for the root.
    pub fn parent(&self) -> (r: Option<Path>)
        requires
            self.wf(),
        ensures
            match r {
                Some(p) => self.segs().len() > 0 && p.wf() && p.segs() == self.segs().drop_last(),
                None => self.segs().len() == 0,
            },
    {
        proof {
            assert(self.segs().len() == self.segments@.len());
        }
        if self.segments.len() == 0 {
            return None;
        }
        let mut segments: Vec<String> = Vec::new();
        let end = self.segments.len() - 1;
        let mut i: usize = 0;
        while i < end
            invariant
                0 <= i <= end,
                end == self.segments@.len() - 1,
                segments@.map_values(|x: String| x@) =~= self.segs().take(i as int),
            decreases end - i,
        {
            let seg: String = self.segments[i].clone();
            proof {
                let f = |x: String| x@;
                assert(seg@ == self.segs()[i as int]);
                assert(segments@.push(seg).map_values(f) =~= segments@.map_values(f).push(seg@));
                assert(segments@.map_values(f).push(seg@) =~= self.segs().take(i + 1));
            }
            segments.push(seg);
            i = i + 1;
        }
        proof {
            assert(self.segs().take(end as int) =~= self.segs().drop_last());
            assert(all_valid(self.segs().drop_last())) by {
                assert(forall|k: int|
                    0 <= k < self.segs().len() - 1 ==> #[trigger] self.segs().drop_last()[k]
                        == self.segs()[k]);
            }
        }
        let raw = render_segments(&segments);
        let p = Path { segments, raw };
        proof {
            assert(p.wf());
        }
        Some(p)
    }

    /// Append further segments, given as a `/`-separated string; empty pieces
    /// are dropped and each remaining piece is validated.
    pub fn join(&self, other: &str) -> (r: Result<Path, StoreError>)
        requires
            self.wf(),
        ensures
            match r {
                Ok(p) => p.wf() && all_valid(split_segs(other@)) && p.segs() == self.segs()
                    + split_segs(other@),
                Err(e) => e == StoreError::InvalidPath && !all_valid(split_segs(other@)),
            },
    {
        let mut segments: Vec<String> = Vec::new();
        let mut i: usize = 0;
        let n = self.segments.len();
        proof {
            assert(self.segs().len() == self.segments@.len());
        }
        while i < n
            invariant
                0 <= i <= n,
                n == self.segments@.len(),
                self.wf(),
                segments@.map_values(|x: String| x@) =~= self.segs().take(i as int),
            decreases n - i,
        {
            let seg: String = self.segments[i].clone();
            proof {
                let f = |x: String| x@;
                assert(seg@ == self.segs()[i as int]);
                assert(segments@.push(seg).map_values(f) =~= segments@.map_values(f).push(seg@));
                assert(segments@.map_values(f).push(seg@) =~= self.segs().take(i + 1));
            }
            segments.push(seg);
            i = i + 1;
        }
        proof {
            assert(self.segs().take(n as int) =~= self.segs());
        }
        let ok = push_split_segments(other, &mut segments, true);
        if !ok {
            return Err(StoreError::InvalidPath);
        }
        let raw = render_segments(&segments);
        let p = Path { segments, raw };
        proof {
            assert(all_valid(p.segs())) by {
                assert(forall|k: int|
                    0 <= k < self.segs().len() ==> #[trigger] p.segs()[k] == self.segs()[k]);
                assert(forall|k: int|
                    self.segs().len() <= k < p.segs().len() ==> #[trigger] p.segs()[k]
                        == split_segs(other@)[k - self.segs().len()]);
            }
            assert(p.wf());
        }
        Ok(p)
    }

    /// Segment-wise prefix test: whether this path lies at or below `prefix`.
    pub fn starts_with(&self, prefix: &Path) -> (r: bool)
        ensures
            r == spec_starts_with(self.segs(), prefix.segs()),
    {
        proof {
            assert(self.segs().len() == self.segments@.len());
            assert(prefix.segs().len() == prefix.segments@.len());
        }
        if prefix.segments.len() > self.segments.len() {
            return false;
        }
        let mut i: usize = 0;
        let n = prefix.segments.len();
        while i < n
            invariant
                0 <= i <= n,
                n == prefix.segments@.len() <= self.segments@.len(),
                forall|k: int| 0 <= k < i ==> self.segs()[k] == prefix.segs()[k],
                self.segs().len() == self.segments@.len(),
                prefix.segs().len() == prefix.segments@.len(),
            decreases n - i,
        {
            let a: &String = &self.segments[i];
            let b: &String = &prefix.segments[i];
            if !crate::text::str_eq(a.as_str(), b.as_str()) {
                proof {
                    assert(self.segs()[i as int] != prefix.segs()[i as int]);
                }
                return false;
            }
            i = i + 1;
        }
        true
    }

    /// Whether this path matches a wildcard pattern: `*` matches exactly one
    /// segment, `**` any number of segments, a literal only itself.
    pub fn matches_pattern(&self, pattern: &str) -> (r: bool)
        ensures
            r == wild_match(self.segs(), split_segs(pattern@)),
    {
        let mut psegs: Vec<String> = Vec::new();
        let _ = push_split_segments(pattern, &mut psegs, false);
        proof {
            assert(psegs@.map_values(|x: String| x@) =~= split_segs(pattern@));
            assert(self.segs().len() == self.segments@.len());
        }
        let r = match_from(&self.segments, 0, &psegs, 0);
        proof {
            assert(self.segments@.map_values(|x: String| x@).skip(0) =~= self.segs());
            assert(psegs@.map_values(|x: String| x@).skip(0) =~= split_segs(pattern@));
        }
        r
    }

    /// Whether the first segment is one of the reserved top-level prefixes.
    pub fn is_reserved_prefix(&self) -> (r: bool)
        ensures
            r == spec_is_reserved(self.segs()),
    {
        proof {
            assert(self.segs().len() == self.segments@.len());
        }
        if self.segments.len() == 0 {
            return false;
        }
        let first: &String = &self.segments[0];
        let s = first.as_str();
        proof {
            assert(s@ == self.segs()[0]);
        }
        crate::text::str_eq(s, "@products") || crate::text::str_eq(s, "@users")
            || crate::text::str_eq(s, "@repos") || crate::text::str_eq(s, "@teams")
            || crate::text::str_eq(s, "@topics") || crate::text::str_eq(s, "@meta")
    }

    /// The last segment, if any.
    pub fn name(&self) -> (r: Option<&str>)
        ensures
            match r {
                Some(s) => self.segs().len() > 0 && s@ == self.segs().last(),
                None => self.segs().len() == 0,
            },
    {
        proof {
            assert(self.segs().len() == self.segments@.len());
        }
        if self.segments.len() == 0 {
            None
        } else {
            let last: &String = &self.segments[self.segments.len() - 1];
            Some(last.as_str())
        }
    }
}

/// Split `s` on `/`, dropping empty pieces, and push each piece onto `acc`.
/// With `validate` set, stop and report failure on a disallowed character.
#[verifier::loop_isolation(false)]
#[verifier::rlimit(60)]
fn push_split_segments(s: &str, acc: &mut Vec<String>, validate: bool) -> (r: bool)
    ensures
        r ==> final(acc)@.map_values(|x: String| x@) == old(acc)@.map_values(|x: String| x@)
            + split_segs(s@),
        r && validate ==> all_valid(split_segs(s@)),
        !r ==> validate && !all_valid(split_segs(s@)),
    {
    let ghost base = acc@.map_values(|x: String| x@);
    let n = s.unicode_len();
    proof {
        assert(s@.skip(0) =~= s@);
    }
    let mut i: usize = 0;
    while i < n
        invariant
            0 <= i <= n,
            base + split_segs(s@) == acc@.map_values(|x: String| x@) + split_segs(
                s@.skip(i as int),
            ),
            acc@.len() >= old(acc)@.len(),
            acc@.map_values(|x: String| x@).take(base.len() as int) == base,
            validate ==> all_valid(
                acc@.map_values(|x: String| x@).skip(base.len() as int),
            ),
        decreases n - i,
    {
        if s.get_char(i) == '/' {
            proof {
                assert(s@.skip(i as int)[0] == s@[i as int]);
                assert(s@.skip(i as int).drop_first() =~= s@.skip(i + 1));
            }
            i = i + 1;
        } else {
            let mut j: usize = i + 1;
            while j < n && s.get_char(j) != '/'
                invariant
                    i < j <= n,
                    forall|k: int| i <= k < j ==> #[trigger] s@[k] != '/',
                decreases n - j,
            {
                j = j + 1;
            }
            proof {
                let rest = s@.skip(i as int);
                assert(forall|m: int| 0 <= m < rest.len() ==> #[trigger] rest[m] == s@[m + i]);
                assert(rest[0] != '/');
                lemma_seg_len_at(rest, j - i);
                assert(rest.take(j - i) =~= s@.subrange(i as int, j as int));
                assert(rest.skip(j - i) =~= s@.skip(j as int));
                assert(split_segs(s@.skip(i as int)) == seq![
                    s@.subrange(i as int, j as int),
                ] + split_segs(s@.skip(j as int)));
            }
            if validate {
                let mut k: usize = i;
                while k < j
                    invariant
                        i <= k <= j,
                        forall|m: int| i <= m < k ==> is_seg_char(#[trigger] s@[m]),
                    decreases j - k,
                {
                    if !seg_char(s.get_char(k)) {
                        proof {
                            let bad = s@.subrange(i as int, j as int);
                            assert(bad[k - i] == s@[k as int]);
                            assert(!valid_seg(bad));
                            let done = acc@.map_values(|x: String| x@);
                            assert(split_segs(s@)[done.len() - base.len()] == bad) by {
                                assert(base + split_segs(s@) == done + split_segs(
                                    s@.skip(i as int),
                                ));
                                assert((base + split_segs(s@))[done.len() as int] == bad);
                            }
                            assert(!all_valid(split_segs(s@)));
                        }
                        return false;
                    }
                    k = k + 1;
                }
            }
            let piece = s.substring_char(i, j);
            let seg: String = piece.to_owned();
            proof {
                let f = |x: String| x@;
                assert(seg@ == s@.subrange(i as int, j as int));
                assert(acc@.push(seg).map_values(f) =~= acc@.map_values(f).push(seg@));
                assert(acc@.map_values(f).push(seg@).take(base.len() as int) =~= acc@.map_values(
                    f,
                ).take(base.len() as int));
                if validate {
                    assert(valid_seg(seg@));
                    assert(acc@.map_values(f).push(seg@).skip(base.len() as int)
                        =~= acc@.map_values(f).skip(base.len() as int).push(seg@));
                }
                assert(base + split_segs(s@) =~= acc@.map_values(f).push(seg@) + split_segs(
                    s@.skip(j as int),
                ));
            }
            acc.push(seg);
            i = j;
        }
    }
    proof {
        assert(s@.skip(n as int) =~= Seq::<char>::empty());
        assert(base + split_segs(s@) =~= acc@.map_values(|x: String| x@));
        assert(acc@.map_values(|x: String| x@) =~= base + split_segs(s@));
        if validate {
            let f = |x: String| x@;
            assert(forall|m: int|
                0 <= m < split_segs(s@).len() ==> #[trigger] split_segs(s@)[m] == acc@.map_values(
                    f,
                ).skip(base.len() as int)[m]);
        }
    }
    true
}

/// The canonical text of a segment vector: `/` when empty, else the segments
/// joined with `/`.
#[verifier::loop_isolation(false)]
fn render_segments(segments: &Vec<String>) -> (r: String)
    ensures
        r@ == render(segments@.map_values(|x: String| x@)),
    {
    let ghost segviews = segments@.map_values(|x: String| x@);
    if segments.len() == 0 {
        let raw = String::from_str("/");
        proof {
            reveal_strlit("/");
            assert(raw@ =~= seq!['/']);
        }
        return raw;
    }
    let mut raw = String::new();
    let mut q: usize = 0;
    while q < segments.len()
        invariant
            0 <= q <= segments.len(),
            q > 0 ==> raw@ == join_segs(segviews.take(q as int)),
            q == 0 ==> raw@ == Seq::<char>::empty(),
        decreases segments.len() - q,
    {
        if q > 0 {
            raw.append("/");
        }
        let sq: &String = &segments[q];
        raw.append(sq.as_str());
        proof {
            reveal_strlit("/");
            if q == 0 {
                assert(segviews.take(1)[0] == segviews[0]);
                assert(raw@ =~= join_segs(segviews.take(1)));
            } else {
                assert("/"@ =~= seq!['/']);
                assert(segviews.take(q as int).push(segviews[q as int]) =~= segviews.take(
                    q as int + 1,
                ));
                lemma_join_snoc(segviews.take(q as int), segviews[q as int]);
                assert(raw@ =~= join_segs(segviews.take(q as int + 1)));
            }
        }
        q = q + 1;
    }
    proof {
        assert(segviews.take(segviews.len() as int) =~= segviews);
        assert(raw@ == join_segs(segviews));
    }
    raw
}

/// Executable test for whitespace characters.
fn is_ws(c: char) -> (r: bool)
    ensures
        r == is_ws_char(c),
{
    c == ' ' || c == '\t' || c == '\n' || c == '\r'
}

/// Executable test for allowed segment characters.
fn seg_char(c: char) -> (r: bool)
    ensures
        r == is_seg_char(c),
{
    let u = c as u32;
    (48 <= u && u <= 57) || (65 <= u && u <= 90) || (97 <= u && u <= 122) || u == 45 || u == 95
        || u == 64
}

} // verus!

use vstd::prelude::verus;

verus! {

impl vstd::std_specs::convert::TryFromSpecImpl<&str> for Path {
    open spec fn obeys_try_from_spec() -> bool {
        false
    }

    open spec fn try_from_spec(v: &str) -> Result<Path, StoreError> {
        Err(StoreError::InvalidPath)
    }
}

impl TryFrom<&str> for Path {
    type Error = StoreError;

    /// Parse, as `Path::parse` does.
    fn try_from(s: &str) -> Result<Path, StoreError> {
        Path::parse(s)
    }
}

impl vstd::std_specs::convert::TryFromSpecImpl<String> for Path {
    open spec fn obeys_try_from_spec() -> bool {
        false
    }

    open spec fn try_from_spec(v: String) -> Result<Path, StoreError> {
        Err(StoreError::InvalidPath)
    }
}

impl TryFrom<String> for Path {
    type Error = StoreError;

    /// Parse, as `Path::parse` does.
    fn try_from(s: String) -> Result<Path, StoreError> {
        Path::parse(s.as_str())
    }
}

} // verus!
