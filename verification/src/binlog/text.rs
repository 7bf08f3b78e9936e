use vstd::prelude::*;
use vstd::utf8::*;

verus! {

/// Whether `c` has the Unicode `White_Space` property, the set of characters
/// that `char::is_whitespace` and `str::trim` treat as whitespace.
pub open spec fn is_unicode_whitespace(c: char) -> bool {
    let v = c as u32;
    ||| 0x09 <= v <= 0x0D
    ||| v == 0x20
    ||| v == 0x85
    ||| v == 0xA0
    ||| v == 0x1680
    ||| 0x2000 <= v <= 0x200A
    ||| v == 0x2028
    ||| v == 0x2029
    ||| v == 0x202F
    ||| v == 0x205F
    ||| v == 0x3000
}

/// `s` without its leading whitespace.
pub open spec fn trim_start(s: Seq<char>) -> Seq<char>
    decreases s.len(),
{
    if s.len() > 0 && is_unicode_whitespace(s[0]) {
        trim_start(s.drop_first())
    } else {
        s
    }
}

/// `s` without its trailing whitespace.
pub open spec fn trim_end(s: Seq<char>) -> Seq<char>
    decreases s.len(),
{
    if s.len() > 0 && is_unicode_whitespace(s.last()) {
        trim_end(s.drop_last())
    } else {
        s
    }
}

/// `s` without leading and trailing whitespace, as `str::trim` gives it.
pub open spec fn trim(s: Seq<char>) -> Seq<char> {
    trim_end(trim_start(s))
}

/// Whether `s` begins with `prefix`.
pub open spec fn starts_with(s: Seq<char>, prefix: Seq<char>) -> bool {
    prefix.len() <= s.len() && s.subrange(0, prefix.len() as int) == prefix
}

/// Whether `c` is Unicode whitespace.
pub fn is_whitespace(c: char) -> (b: bool)
    ensures
        b == is_unicode_whitespace(c),
{
    let v = c as u32;
    (0x09 <= v && v <= 0x0D) || v == 0x20 || v == 0x85 || v == 0xA0 || v == 0x1680 || (0x2000
        <= v && v <= 0x200A) || v == 0x2028 || v == 0x2029 || v == 0x202F || v == 0x205F || v
        == 0x3000
}

proof fn lemma_trim_start_step(s: Seq<char>, a: int)
    requires
        0 <= a < s.len(),
        is_unicode_whitespace(s[a]),
    ensures
        trim_start(s.subrange(a, s.len() as int)) == trim_start(s.subrange(a + 1, s.len() as int)),
{
    assert(s.subrange(a, s.len() as int).drop_first() =~= s.subrange(a + 1, s.len() as int));
}

proof fn lemma_trim_end_step(t: Seq<char>, b: int)
    requires
        0 < b <= t.len(),
        is_unicode_whitespace(t[b - 1]),
    ensures
        trim_end(t.subrange(0, b)) == trim_end(t.subrange(0, b - 1)),
{
    assert(t.subrange(0, b).drop_last() =~= t.subrange(0, b - 1));
}

/// Removes leading and trailing whitespace from a sequence of characters.
pub fn trim_chars(s: &[char]) -> (r: Vec<char>)
    ensures
        r@ == trim(s@),
{
    let n = s.len();
    let mut a: usize = 0;
    assert(s@.subrange(0, n as int) =~= s@);
    while a < n && is_whitespace(s[a])
        invariant
            a <= n,
            n == s@.len(),
            trim_start(s@) == trim_start(s@.subrange(a as int, n as int)),
        decreases n - a,
    {
        proof {
            lemma_trim_start_step(s@, a as int);
        }
        a = a + 1;
    }
    let ghost t = s@.subrange(a as int, n as int);
    assert(trim_start(s@) == t);
    let mut b: usize = n;
    assert(t.subrange(0, (b - a) as int) =~= t);
    while b > a && is_whitespace(s[b - 1])
        invariant
            a <= b <= n,
            n == s@.len(),
            t == s@.subrange(a as int, n as int),
            trim_end(t) == trim_end(t.subrange(0, (b - a) as int)),
        decreases b - a,
    {
        proof {
            lemma_trim_end_step(t, (b - a) as int);
        }
        b = b - 1;
    }
    assert(trim_end(t) == t.subrange(0, (b - a) as int));
    let mut r: Vec<char> = Vec::new();
    let mut i: usize = a;
    while i < b
        invariant
            a <= i <= b <= n,
            n == s@.len(),
            r@ == s@.subrange(a as int, i as int),
        decreases b - i,
    {
        r.push(s[i]);
        i = i + 1;
        assert(r@ =~= s@.subrange(a as int, i as int));
    }
    assert(r@ =~= t.subrange(0, (b - a) as int));
    r
}

/// Whether `s` begins with `prefix`.
pub fn chars_start_with(s: &[char], prefix: &[char]) -> (b: bool)
    ensures
        b == starts_with(s@, prefix@),
{
    if prefix.len() > s.len() {
        return false;
    }
    let mut i: usize = 0;
    while i < prefix.len()
        invariant
            i <= prefix@.len() <= s@.len(),
            forall|j: int| 0 <= j < i ==> s@[j] == prefix@[j],
        decreases prefix@.len() - i,
    {
        if s[i] != prefix[i] {
            assert(s@.subrange(0, prefix@.len() as int)[i as int] != prefix@[i as int]);
            return false;
        }
        i = i + 1;
    }
    assert(s@.subrange(0, prefix@.len() as int) =~= prefix@);
    true
}

/// Decodes `bytes` as UTF-8, giving its characters, or `None` where the bytes
/// are not valid UTF-8.
///
/// Calls `std::str::from_utf8`; its documentation says it returns `Ok` exactly
/// for valid UTF-8, and the contract states that with vstd's `valid_utf8` and
/// `decode_utf8`.
#[verifier::external_body]
pub(crate) fn utf8_chars(bytes: &[u8]) -> (r: Option<Vec<char>>)
    ensures
        r is Some <==> valid_utf8(bytes@),
        r matches Some(cs) ==> cs@ == decode_utf8(bytes@),
{
    match std::str::from_utf8(bytes) {
        Ok(s) => Some(s.chars().collect()),
        Err(_) => None,
    }
}

/// A `String` holding exactly the characters `cs`.
///
/// Calls `String`'s `FromIterator<&char>`; its documentation says it pushes
/// each character in order, which is all the contract claims.
#[verifier::external_body]
pub(crate) fn string_from_chars(cs: &[char]) -> (s: String)
    ensures
        s@ == cs@,
{
    cs.iter().collect()
}

/// Whether every character of `s` is whitespace.
pub open spec fn all_whitespace(s: Seq<char>) -> bool {
    forall|i: int| 0 <= i < s.len() ==> #[trigger] is_unicode_whitespace(s[i])
}

/// Whitespace in front of a text does not survive `trim_start`.
proof fn lemma_trim_start_ws_prefix(w: Seq<char>, x: Seq<char>)
    requires
        all_whitespace(w),
    ensures
        trim_start(w + x) == trim_start(x),
    decreases w.len(),
{
    if w.len() == 0 {
        assert(w + x =~= x);
    } else {
        assert((w + x)[0] == w[0]);
        assert((w + x).drop_first() =~= w.drop_first() + x);
        assert(all_whitespace(w.drop_first())) by {
            assert forall|i: int| 0 <= i < w.drop_first().len() implies #[trigger] is_unicode_whitespace(
                w.drop_first()[i],
            ) by {
                assert(w.drop_first()[i] == w[i + 1]);
            }
        }
        lemma_trim_start_ws_prefix(w.drop_first(), x);
    }
}

/// Whitespace after a text does not survive `trim_end`.
proof fn lemma_trim_end_ws_suffix(x: Seq<char>, w: Seq<char>)
    requires
        all_whitespace(w),
    ensures
        trim_end(x + w) == trim_end(x),
    decreases w.len(),
{
    if w.len() == 0 {
        assert(x + w =~= x);
    } else {
        assert((x + w).last() == w.last());
        assert((x + w).drop_last() =~= x + w.drop_last());
        assert(all_whitespace(w.drop_last())) by {
            assert forall|i: int| 0 <= i < w.drop_last().len() implies #[trigger] is_unicode_whitespace(
                w.drop_last()[i],
            ) by {
                assert(w.drop_last()[i] == w[i]);
            }
        }
        lemma_trim_end_ws_suffix(x, w.drop_last());
    }
}

/// `trim_start` of a concatenation: the tail stays whole once the head has a
/// non-whitespace character.
proof fn lemma_trim_start_append(s: Seq<char>, w: Seq<char>)
    ensures
        trim_start(s + w) == (if trim_start(s).len() > 0 {
            trim_start(s) + w
        } else {
            trim_start(w)
        }),
    decreases s.len(),
{
    if s.len() == 0 {
        assert(s + w =~= w);
    } else if is_unicode_whitespace(s[0]) {
        assert((s + w)[0] == s[0]);
        assert((s + w).drop_first() =~= s.drop_first() + w);
        lemma_trim_start_append(s.drop_first(), w);
    } else {
        assert((s + w)[0] == s[0]);
    }
}

/// What `trim_start` leaves is empty or starts with a non-whitespace
/// character, and is a suffix of its argument.
proof fn lemma_trim_start_shape(s: Seq<char>)
    ensures
        trim_start(s).len() <= s.len(),
        trim_start(s) == s.subrange(s.len() - trim_start(s).len(), s.len() as int),
        trim_start(s).len() == 0 || !is_unicode_whitespace(trim_start(s)[0]),
    decreases s.len(),
{
    if s.len() > 0 && is_unicode_whitespace(s[0]) {
        lemma_trim_start_shape(s.drop_first());
        let r = trim_start(s.drop_first());
        assert(s.drop_first().subrange(s.drop_first().len() - r.len(), s.drop_first().len() as int)
            =~= s.subrange(s.len() - r.len(), s.len() as int));
    } else {
        assert(s.subrange(0, s.len() as int) =~= s);
    }
}

/// What `trim_end` leaves is empty or ends with a non-whitespace character,
/// and is a prefix of its argument.
proof fn lemma_trim_end_shape(s: Seq<char>)
    ensures
        trim_end(s).len() <= s.len(),
        trim_end(s) == s.subrange(0, trim_end(s).len() as int),
        trim_end(s).len() == 0 || !is_unicode_whitespace(trim_end(s).last()),
    decreases s.len(),
{
    if s.len() > 0 && is_unicode_whitespace(s.last()) {
        lemma_trim_end_shape(s.drop_last());
        let r = trim_end(s.drop_last());
        assert(s.drop_last().subrange(0, r.len() as int) =~= s.subrange(0, r.len() as int));
    } else {
        assert(s.subrange(0, s.len() as int) =~= s);
    }
}

/// Trimming twice is trimming once: a trimmed text has no whitespace at either
/// end.
pub proof fn lemma_trim_idempotent(s: Seq<char>)
    ensures
        trim(trim(s)) == trim(s),
        trim(s).len() == 0 || (!is_unicode_whitespace(trim(s)[0]) && !is_unicode_whitespace(
            trim(s).last(),
        )),
{
    let u = trim_start(s);
    lemma_trim_start_shape(s);
    lemma_trim_end_shape(u);
    let t = trim_end(u);
    if t.len() > 0 {
        assert(t[0] == u[0]);
    }
    // t starts with a non-whitespace character (or is empty), so trim_start keeps it
    assert(trim_start(t) == t);
    // and t ends with a non-whitespace character (or is empty), so trim_end keeps it
    assert(trim_end(t) == t);
}

/// Whitespace around a text does not change what `trim` gives.
pub proof fn lemma_trim_surrounding_whitespace(before: Seq<char>, s: Seq<char>, after: Seq<char>)
    requires
        all_whitespace(before),
        all_whitespace(after),
    ensures
        trim(before + s + after) == trim(s),
{
    assert(before + s + after =~= before + (s + after));
    lemma_trim_start_ws_prefix(before, s + after);
    lemma_trim_start_append(s, after);
    if trim_start(s).len() > 0 {
        lemma_trim_end_ws_suffix(trim_start(s), after);
    } else {
        lemma_trim_start_ws_prefix(after, Seq::empty());
        assert(after + Seq::<char>::empty() =~= after);
    }
}

/// `trim_end` keeps every character up to the last non-whitespace one.
proof fn lemma_trim_end_keeps(s: Seq<char>, j: int)
    requires
        0 <= j < s.len(),
        !is_unicode_whitespace(s[j]),
    ensures
        trim_end(s).len() > j,
    decreases s.len(),
{
    if is_unicode_whitespace(s.last()) {
        assert(j < s.len() - 1);
        assert(s.drop_last()[j] == s[j]);
        lemma_trim_end_keeps(s.drop_last(), j);
    }
}

/// A text whose first `k` characters are not whitespace keeps them when trimmed.
pub proof fn lemma_trim_keeps_prefix(s: Seq<char>, k: int)
    requires
        0 < k <= s.len(),
        forall|i: int| 0 <= i < k ==> !#[trigger] is_unicode_whitespace(s[i]),
    ensures
        trim(s).len() >= k,
        trim(s).subrange(0, k) == s.subrange(0, k),
{
    assert(trim_start(s) == s);
    lemma_trim_end_keeps(s, k - 1);
    lemma_trim_end_shape(s);
    let t = trim_end(s);
    assert(t.subrange(0, k) =~= s.subrange(0, k));
}

} // verus!
