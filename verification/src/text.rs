//! Small executable helpers over strings and characters.

use vstd::prelude::*;

verus! {

/// Character-for-character string equality, decided executably.
pub fn str_eq(a: &str, b: &str) -> (r: bool)
    ensures
        r == (a@ == b@),
{
    let an = a.unicode_len();
    let bn = b.unicode_len();
    if an != bn {
        proof {
            assert(a@ != b@) by {
                assert(a@.len() != b@.len());
            }
        }
        return false;
    }
    let mut i: usize = 0;
    while i < an
        invariant
            i <= an,
            an == a@.len(),
            an == b@.len(),
            forall|k: int| 0 <= k < i ==> a@[k] == b@[k],
        decreases an - i,
    {
        if a.get_char(i) != b.get_char(i) {
            return false;
        }
        i = i + 1;
    }
    proof {
        assert(a@ =~= b@);
    }
    true
}

/// The characters of a string, as a vector.
pub fn chars_of(s: &str) -> (r: Vec<char>)
    ensures
        r@ == s@,
{
    let n = s.unicode_len();
    let mut r: Vec<char> = Vec::new();
    let mut i: usize = 0;
    while i < n
        invariant
            i <= n,
            n == s@.len(),
            r@ =~= s@.take(i as int),
        decreases n - i,
    {
        let c = s.get_char(i);
        r.push(c);
        i = i + 1;
    }
    proof {
        assert(s@.take(n as int) =~= s@);
    }
    r
}

/// Whitespace trimmed from the ends of parser input.
pub open spec fn is_ws_char(c: char) -> bool {
    c == ' ' || c == '\t' || c == '\n' || c == '\r'
}

// ---------------------------------------------------------------------------
// Trimming
// ---------------------------------------------------------------------------

/// Drop leading characters satisfying `p`.
pub open spec fn ltrim(s: Seq<char>, p: spec_fn(char) -> bool) -> Seq<char>
    decreases s.len(),
{
    if s.len() > 0 && p(s[0]) {
        ltrim(s.drop_first(), p)
    } else {
        s
    }
}

/// Drop trailing characters satisfying `p`.
pub open spec fn rtrim(s: Seq<char>, p: spec_fn(char) -> bool) -> Seq<char>
    decreases s.len(),
{
    if s.len() > 0 && p(s.last()) {
        rtrim(s.drop_last(), p)
    } else {
        s
    }
}

/// Drop characters satisfying `p` from both ends.
pub open spec fn trim(s: Seq<char>, p: spec_fn(char) -> bool) -> Seq<char> {
    rtrim(ltrim(s, p), p)
}

pub proof fn lemma_ltrim_range(s: Seq<char>, p: spec_fn(char) -> bool, k: int)
    requires
        0 <= k <= s.len(),
        forall|j: int| 0 <= j < k ==> p(#[trigger] s[j]),
        k < s.len() ==> !p(s[k]),
    ensures
        ltrim(s, p) == s.skip(k),
    decreases s.len(),
{
    if k == 0 {
        if s.len() == 0 {
            assert(ltrim(s, p) =~= s.skip(0));
        } else {
            assert(!p(s[0]));
            assert(ltrim(s, p) =~= s.skip(0));
        }
    } else {
        assert(p(s[0]));
        assert(s.drop_first() =~= s.skip(1));
        lemma_ltrim_range(s.skip(1), p, k - 1);
        assert(s.skip(1).skip(k - 1) =~= s.skip(k));
    }
}

pub proof fn lemma_rtrim_range(s: Seq<char>, p: spec_fn(char) -> bool, m: int)
    requires
        0 <= m <= s.len(),
        forall|j: int| m <= j < s.len() ==> p(#[trigger] s[j]),
        m > 0 ==> !p(s[m - 1]),
    ensures
        rtrim(s, p) == s.take(m),
    decreases s.len(),
{
    if m == s.len() {
        if s.len() == 0 {
            assert(rtrim(s, p) =~= s.take(m));
        } else {
            assert(!p(s.last()));
            assert(rtrim(s, p) =~= s.take(m));
        }
    } else {
        assert(p(s.last()));
        assert(s.drop_last() =~= s.take(s.len() - 1));
        lemma_rtrim_range(s.take(s.len() - 1), p, m);
        assert(s.take(s.len() - 1).take(m) =~= s.take(m));
    }
}


/// Length of the leading run of characters that do not satisfy `p`: the
/// index of the first such character, or the length if there is none.
pub open spec fn first_such(s: Seq<char>, p: spec_fn(char) -> bool) -> nat
    decreases s.len(),
{
    if s.len() == 0 || p(s[0]) {
        0
    } else {
        1 + first_such(s.drop_first(), p)
    }
}

pub proof fn lemma_first_such_at(s: Seq<char>, p: spec_fn(char) -> bool, k: int)
    requires
        0 <= k <= s.len(),
        forall|j: int| 0 <= j < k ==> !p(#[trigger] s[j]),
        k < s.len() ==> p(s[k]),
    ensures
        first_such(s, p) == k,
    decreases s.len(),
{
    if k == 0 {
        if s.len() > 0 {
            assert(p(s[0]));
        }
    } else {
        assert(!p(s[0]));
        assert(s.drop_first() =~= s.skip(1));
        lemma_first_such_at(s.skip(1), p, k - 1);
    }
}

/// The uppercase-folding of an ASCII code: `A`..`Z` map down to lowercase,
/// everything else is unchanged.
pub open spec fn lower_code(u: u32) -> int {
    if 65 <= u && u <= 90 {
        u + 32
    } else {
        u as int
    }
}

/// Every character is ASCII.
pub open spec fn is_ascii_seq(s: Seq<char>) -> bool {
    forall|i: int| 0 <= i < s.len() ==> (#[trigger] s[i] as u32) < 128
}

/// Alphanumeric ASCII characters: the token characters of the search index.
pub open spec fn is_alnum(c: char) -> bool {
    let u = c as u32;
    (48 <= u && u <= 57) || (65 <= u && u <= 90) || (97 <= u && u <= 122)
}

/// `tok` occurs in `text` at position `i`, compared case-insensitively and
/// delimited by non-alphanumeric characters or the ends of the text.
pub open spec fn occurs_at(text: Seq<char>, tok: Seq<char>, i: int) -> bool {
    &&& 0 <= i
    &&& i + tok.len() <= text.len()
    &&& forall|k: int|
        0 <= k < tok.len() ==> lower_code((#[trigger] text[i + k]) as u32) == lower_code(
            tok[k] as u32,
        )
    &&& (i == 0 || !is_alnum(text[i - 1]))
    &&& (i + tok.len() == text.len() || !is_alnum(text[i + tok.len()]))
}

/// `tok` occurs somewhere in `text` as a delimited word.
pub open spec fn has_token(text: Seq<char>, tok: Seq<char>) -> bool {
    exists|i: int| occurs_at(text, tok, i)
}

/// Executable test for alphanumeric ASCII.
pub fn is_alnum_exec(c: char) -> (r: bool)
    ensures
        r == is_alnum(c),
{
    let u = c as u32;
    (48 <= u && u <= 57) || (65 <= u && u <= 90) || (97 <= u && u <= 122)
}

/// Decide whether `tok` occurs in `text` as a delimited word, ignoring
/// ASCII case.
#[verifier::loop_isolation(false)]
#[verifier::rlimit(60)]
pub fn has_token_exec(text: &str, tok: &str) -> (r: bool)
    requires
        tok@.len() >= 1,
    ensures
        r == has_token(text@, tok@),
{
    let n = text.unicode_len();
    let m = tok.unicode_len();
    if m > n {
        proof {
            assert forall|ip: int| !occurs_at(text@, tok@, ip) by {}
        }
        return false;
    }
    let mut i: usize = 0;
    while i <= n - m
        invariant
            0 <= i <= n - m + 1,
            1 <= m <= n,
            n == text@.len(),
            m == tok@.len(),
            forall|ip: int| 0 <= ip < i ==> !occurs_at(text@, tok@, ip),
        decreases n - i,
    {
        let mut ok = true;
        if i > 0 {
            if is_alnum_exec(text.get_char(i - 1)) {
                ok = false;
            }
        }
        if ok && i + m < n {
            if is_alnum_exec(text.get_char(i + m)) {
                ok = false;
            }
        }
        if ok {
            let mut k: usize = 0;
            let mut mismatch = false;
            while k < m
                invariant
                    0 <= k <= m,
                    i + m <= n,
                    !mismatch ==> forall|q: int|
                        0 <= q < k ==> lower_code((#[trigger] text@[i + q]) as u32) == lower_code(
                            tok@[q] as u32,
                        ),
                    mismatch ==> !occurs_at(text@, tok@, i as int),
                decreases m - k,
            {
                let ca = text.get_char(i + k) as u32;
                let cb = tok.get_char(k) as u32;
                let fa: u32 = if 65 <= ca && ca <= 90 {
                    ca + 32
                } else {
                    ca
                };
                let fb: u32 = if 65 <= cb && cb <= 90 {
                    cb + 32
                } else {
                    cb
                };
                if fa != fb {
                    proof {
                        assert(lower_code(text@[i + k] as u32) != lower_code(tok@[k as int] as u32));
                    }
                    mismatch = true;
                    k = m;
                } else {
                    k = k + 1;
                }
            }
            if !mismatch {
                proof {
                    assert(occurs_at(text@, tok@, i as int));
                }
                return true;
            }
        } else {
            proof {
                assert(!occurs_at(text@, tok@, i as int));
            }
        }
        i = i + 1;
    }
    proof {
        assert forall|ip: int| !occurs_at(text@, tok@, ip) by {
            if 0 <= ip && ip + m <= n {
                assert(ip < i);
            }
        }
    }
    false
}

/// Every word that splitting produces is nonempty.
pub proof fn lemma_split_on_nonempty(s: Seq<char>, p: spec_fn(char) -> bool)
    ensures
        forall|k: int| 0 <= k < split_on(s, p).len() ==> (#[trigger] split_on(s, p)[k]).len() >= 1,
    decreases s.len(),
{
    if s.len() == 0 {
    } else if p(s[0]) {
        lemma_split_on_nonempty(s.drop_first(), p);
        assert(split_on(s, p) == split_on(s.drop_first(), p));
        assert forall|k: int| 0 <= k < split_on(s, p).len() implies (
        #[trigger] split_on(s, p)[k]).len() >= 1 by {
            assert(split_on(s, p)[k] == split_on(s.drop_first(), p)[k]);
        }
    } else {
        lemma_first_such_le(s, p);
        assert(first_such(s, p) == 1 + first_such(s.drop_first(), p));
        let f = first_such(s, p) as int;
        lemma_split_on_nonempty(s.skip(f), p);
        assert(split_on(s, p) == seq![s.take(f)] + split_on(s.skip(f), p));
        assert forall|k: int| 0 <= k < split_on(s, p).len() implies (
        #[trigger] split_on(s, p)[k]).len() >= 1 by {
            if k == 0 {
                assert(split_on(s, p)[0] == s.take(f));
                assert(s.take(f).len() == f);
            } else {
                assert(split_on(s, p)[k] == split_on(s.skip(f), p)[k - 1]);
            }
        }
    }
}

/// The maximal runs of characters not satisfying `p`, in order.
pub open spec fn split_on(s: Seq<char>, p: spec_fn(char) -> bool) -> Seq<Seq<char>>
    decreases s.len(),
    via split_on_decreases
{
    if s.len() == 0 {
        Seq::empty()
    } else if p(s[0]) {
        split_on(s.drop_first(), p)
    } else {
        seq![s.take(first_such(s, p) as int)] + split_on(s.skip(first_such(s, p) as int), p)
    }
}

pub proof fn lemma_first_such_le(s: Seq<char>, p: spec_fn(char) -> bool)
    ensures
        first_such(s, p) <= s.len(),
    decreases s.len(),
{
    if s.len() > 0 && !p(s[0]) {
        lemma_first_such_le(s.drop_first(), p);
    }
}

#[via_fn]
proof fn split_on_decreases(s: Seq<char>, p: spec_fn(char) -> bool) {
    if s.len() > 0 && !p(s[0]) {
        lemma_first_such_le(s, p);
        assert(first_such(s, p) == 1 + first_such(s.drop_first(), p));
    }
}

/// The whitespace-separated words of a string.
#[verifier::loop_isolation(false)]
#[verifier::rlimit(60)]
pub fn split_ws(s: &str) -> (r: Vec<String>)
    ensures
        r@.map_values(|x: String| x@) == split_on(s@, |c: char| is_ws_char(c)),
{
    let ghost wsp = |c: char| is_ws_char(c);
    let n = s.unicode_len();
    let mut acc: Vec<String> = Vec::new();
    proof {
        assert(s@.skip(0) =~= s@);
        assert(acc@.map_values(|x: String| x@) =~= Seq::<Seq<char>>::empty());
    }
    let mut i: usize = 0;
    while i < n
        invariant
            0 <= i <= n,
            n == s@.len(),
            split_on(s@, wsp) == acc@.map_values(|x: String| x@) + split_on(
                s@.skip(i as int),
                wsp,
            ),
        decreases n - i,
    {
        if is_ws(s.get_char(i)) {
            proof {
                assert(s@.skip(i as int)[0] == s@[i as int]);
                assert(s@.skip(i as int).drop_first() =~= s@.skip(i + 1));
            }
            i = i + 1;
        } else {
            let mut j: usize = i + 1;
            while j < n && !is_ws(s.get_char(j))
                invariant
                    i < j <= n,
                    forall|k: int| i <= k < j ==> !is_ws_char(#[trigger] s@[k]),
                decreases n - j,
            {
                j = j + 1;
            }
            let piece = s.substring_char(i, j);
            let word: String = piece.to_owned();
            proof {
                let rest = s@.skip(i as int);
                assert(forall|m: int| 0 <= m < rest.len() ==> #[trigger] rest[m] == s@[m + i]);
                assert(!wsp(rest[0]));
                lemma_first_such_at(rest, wsp, j - i);
                assert(rest.take(j - i) =~= s@.subrange(i as int, j as int));
                assert(rest.skip(j - i) =~= s@.skip(j as int));
                assert(word@ == s@.subrange(i as int, j as int));
                assert(acc@.push(word).map_values(|x: String| x@) =~= acc@.map_values(
                    |x: String| x@,
                ).push(word@));
                assert(split_on(s@, wsp) =~= acc@.map_values(|x: String| x@).push(word@)
                    + split_on(s@.skip(j as int), wsp));
            }
            acc.push(word);
            i = j;
        }
    }
    proof {
        assert(s@.skip(n as int) =~= Seq::<char>::empty());
        assert(acc@.map_values(|x: String| x@) =~= split_on(s@, wsp));
    }
    acc
}

/// Executable test for whitespace.
fn is_ws(c: char) -> (r: bool)
    ensures
        r == is_ws_char(c),
{
    c == ' ' || c == '\t' || c == '\n' || c == '\r'
}

/// Distinct characters have distinct code points.
pub proof fn lemma_char_codes_differ(c1: char, c2: char)
    requires
        c1 != c2,
    ensures
        c1 as u32 != c2 as u32,
{
}

/// Strict lexicographic order on character sequences, by code point.
pub open spec fn lex_lt(a: Seq<char>, b: Seq<char>) -> bool
    decreases a.len(),
{
    if b.len() == 0 {
        false
    } else if a.len() == 0 {
        true
    } else if (a[0] as u32) < (b[0] as u32) {
        true
    } else if (a[0] as u32) > (b[0] as u32) {
        false
    } else {
        lex_lt(a.drop_first(), b.drop_first())
    }
}

/// `lex_lt` is irreflexive.
pub proof fn lemma_lex_irrefl(a: Seq<char>)
    ensures
        !lex_lt(a, a),
    decreases a.len(),
{
    if a.len() > 0 {
        lemma_lex_irrefl(a.drop_first());
    }
}

/// Exactly one of `lex_lt(a, b)`, `lex_lt(b, a)`, `a == b` holds.
pub proof fn lemma_lex_trichotomy(a: Seq<char>, b: Seq<char>)
    ensures
        lex_lt(a, b) || lex_lt(b, a) || a == b,
        lex_lt(a, b) ==> !lex_lt(b, a) && a != b,
        a == b ==> !lex_lt(a, b),
    decreases a.len(),
{
    lemma_lex_irrefl(a);
    lemma_lex_irrefl(b);
    if a.len() > 0 && b.len() > 0 && a[0] == b[0] {
        lemma_lex_trichotomy(a.drop_first(), b.drop_first());
        if a.drop_first() == b.drop_first() {
            assert(a.len() == b.len());
            assert forall|k: int| 0 <= k < a.len() implies a[k] == b[k] by {
                if k > 0 {
                    assert(a.drop_first()[k - 1] == b.drop_first()[k - 1]);
                }
            }
            assert(a =~= b);
        }
    } else if a.len() > 0 && b.len() > 0 {
        lemma_char_codes_differ(a[0], b[0]);
    } else if a.len() == 0 && b.len() == 0 {
        assert(a =~= b);
    }
}

/// `lex_lt` is transitive.
pub proof fn lemma_lex_trans(a: Seq<char>, b: Seq<char>, c: Seq<char>)
    requires
        lex_lt(a, b),
        lex_lt(b, c),
    ensures
        lex_lt(a, c),
    decreases a.len() + b.len() + c.len(),
{
    if a.len() > 0 && b.len() > 0 && c.len() > 0 && (a[0] as u32) == (b[0] as u32) && (b[0] as u32)
        == (c[0] as u32) {
        lemma_lex_trans(a.drop_first(), b.drop_first(), c.drop_first());
    }
}

/// Skipping a common prefix leaves the order unchanged.
pub proof fn lemma_lex_common_prefix(a: Seq<char>, b: Seq<char>, i: int)
    requires
        0 <= i <= a.len(),
        0 <= i <= b.len(),
        forall|k: int| 0 <= k < i ==> a[k] == b[k],
    ensures
        lex_lt(a, b) == lex_lt(a.skip(i), b.skip(i)),
    decreases i,
{
    if i > 0 {
        assert(a.len() > 0 && b.len() > 0 && a[0] == b[0]);
        assert(!((a[0] as u32) < (b[0] as u32)) && !((a[0] as u32) > (b[0] as u32)));
        assert(lex_lt(a, b) == lex_lt(a.drop_first(), b.drop_first()));
        assert(a.drop_first() =~= a.skip(1));
        assert(b.drop_first() =~= b.skip(1));
        lemma_lex_common_prefix(a.skip(1), b.skip(1), i - 1);
        assert(a.skip(1).skip(i - 1) =~= a.skip(i));
        assert(b.skip(1).skip(i - 1) =~= b.skip(i));
        assert(lex_lt(a.skip(1), b.skip(1)) == lex_lt(a.skip(i), b.skip(i)));
    } else {
        assert(a.skip(0) =~= a);
        assert(b.skip(0) =~= b);
    }
}

/// Strict lexicographic comparison, decided executably.
pub fn str_lex_lt(a: &str, b: &str) -> (r: bool)
    ensures
        r == lex_lt(a@, b@),
{
    let an = a.unicode_len();
    let bn = b.unicode_len();
    let mut i: usize = 0;
    while i < an && i < bn
        invariant
            0 <= i <= an,
            0 <= i <= bn,
            an == a@.len(),
            bn == b@.len(),
            forall|k: int| 0 <= k < i ==> a@[k] == b@[k],
        decreases an - i,
    {
        let ca = a.get_char(i) as u32;
        let cb = b.get_char(i) as u32;
        if ca < cb {
            proof {
                lemma_lex_common_prefix(a@, b@, i as int);
            }
            return true;
        }
        if ca > cb {
            proof {
                lemma_lex_common_prefix(a@, b@, i as int);
            }
            return false;
        }
        proof {
            assert(a@[i as int] == b@[i as int]);
        }
        i = i + 1;
    }
    proof {
        lemma_lex_common_prefix(a@, b@, i as int);
    }
    an < bn
}

/// Segment-free string prefix relation.
pub open spec fn is_str_prefix(p: Seq<char>, s: Seq<char>) -> bool {
    p.len() <= s.len() && s.take(p.len() as int) == p
}

/// Whether `s` starts with `p`, character for character.
pub fn str_starts_with(s: &str, p: &str) -> (r: bool)
    ensures
        r == is_str_prefix(p@, s@),
{
    let sn = s.unicode_len();
    let pn = p.unicode_len();
    if pn > sn {
        return false;
    }
    let mut i: usize = 0;
    while i < pn
        invariant
            0 <= i <= pn <= sn,
            sn == s@.len(),
            pn == p@.len(),
            forall|k: int| 0 <= k < i ==> s@[k] == p@[k],
        decreases pn - i,
    {
        if s.get_char(i) != p.get_char(i) {
            proof {
                assert(s@.take(pn as int)[i as int] != p@[i as int]);
            }
            return false;
        }
        i = i + 1;
    }
    proof {
        assert(s@.take(pn as int) =~= p@);
    }
    true
}

/// Equality up to ASCII case.
pub open spec fn fold_eq(a: Seq<char>, b: Seq<char>) -> bool {
    a.len() == b.len() && forall|i: int|
        0 <= i < a.len() ==> lower_code((#[trigger] a[i]) as u32) == lower_code(b[i] as u32)
}

/// String equality up to ASCII case, decided executably.
pub fn str_eq_fold(a: &str, b: &str) -> (r: bool)
    ensures
        r == fold_eq(a@, b@),
{
    let an = a.unicode_len();
    let bn = b.unicode_len();
    if an != bn {
        return false;
    }
    let mut i: usize = 0;
    while i < an
        invariant
            i <= an,
            an == a@.len(),
            an == b@.len(),
            forall|k: int|
                0 <= k < i ==> lower_code((#[trigger] a@[k]) as u32) == lower_code(b@[k] as u32),
        decreases an - i,
    {
        let ca = a.get_char(i) as u32;
        let cb = b.get_char(i) as u32;
        let fa: u32 = if 65 <= ca && ca <= 90 {
            ca + 32
        } else {
            ca
        };
        let fb: u32 = if 65 <= cb && cb <= 90 {
            cb + 32
        } else {
            cb
        };
        if fa != fb {
            return false;
        }
        i = i + 1;
    }
    true
}

/// Relies on str's `to_lowercase`: on ASCII input, uppercase letters map to
/// their lowercase counterparts and all other characters are unchanged.
#[verifier::external_body]
pub fn ascii_lower(s: &str) -> (r: String)
    ensures
        is_ascii_seq(s@) ==> r@.len() == s@.len(),
        is_ascii_seq(s@) ==> forall|i: int|
            0 <= i < s@.len() ==> (#[trigger] r@[i] as u32) == lower_code(s@[i] as u32),
{
    s.to_lowercase()
}


} // verus!
