//! Character-level text helpers: every string the library reads is viewed as
//! the sequence of its Unicode scalar values.
use vstd::prelude::*;

verus! {

// ---------------------------------------------------------------------------
// Character classes
// ---------------------------------------------------------------------------

/// Unicode `White_Space`, the set that `char::is_whitespace` and `str::trim` use.
pub open spec fn is_ws(c: char) -> bool {
    ||| '\t' <= c <= '\r'
    ||| c == ' '
    ||| c == '\u{85}'
    ||| c == '\u{A0}'
    ||| c == '\u{1680}'
    ||| '\u{2000}' <= c <= '\u{200A}'
    ||| c == '\u{2028}'
    ||| c == '\u{2029}'
    ||| c == '\u{202F}'
    ||| c == '\u{205F}'
    ||| c == '\u{3000}'
}

pub fn is_whitespace(c: char) -> (b: bool)
    ensures
        b == is_ws(c),
{
    ('\t' <= c && c <= '\r') || c == ' ' || c == '\u{85}' || c == '\u{A0}' || c == '\u{1680}'
        || ('\u{2000}' <= c && c <= '\u{200A}') || c == '\u{2028}' || c == '\u{2029}' || c
        == '\u{202F}' || c == '\u{205F}' || c == '\u{3000}'
}

pub open spec fn is_digit(c: char) -> bool {
    '0' <= c <= '9'
}

pub fn is_ascii_digit(c: char) -> (b: bool)
    ensures
        b == is_digit(c),
{
    '0' <= c && c <= '9'
}

pub open spec fn is_alpha(c: char) -> bool {
    ('a' <= c <= 'z') || ('A' <= c <= 'Z')
}

pub fn is_ascii_alphabetic(c: char) -> (b: bool)
    ensures
        b == is_alpha(c),
{
    ('a' <= c && c <= 'z') || ('A' <= c && c <= 'Z')
}

/// `char::to_ascii_lowercase`.
pub open spec fn ascii_lower(c: char) -> char {
    if 'A' <= c <= 'Z' {
        ((c as u32) + 32) as char
    } else {
        c
    }
}

pub fn to_ascii_lower(c: char) -> (r: char)
    ensures
        r == ascii_lower(c),
{
    if 'A' <= c && c <= 'Z' {
        let n: u32 = (c as u32) + 32;
        let r = char_of_ascii(n);
        r
    } else {
        c
    }
}

/// A code point below 0x80 as a `char`.
pub fn char_of_ascii(n: u32) -> (c: char)
    requires
        n < 0x80,
    ensures
        c == n as char,
        c as u32 == n,
{
    let b: u8 = n as u8;
    let c = b as char;
    c
}

/// Number of bytes of a scalar value in UTF-8.
pub open spec fn utf8_width(c: char) -> nat {
    if (c as u32) < 0x80 {
        1
    } else if (c as u32) < 0x800 {
        2
    } else if (c as u32) < 0x10000 {
        3
    } else {
        4
    }
}

pub fn char_width(c: char) -> (w: usize)
    ensures
        w == utf8_width(c),
{
    let n = c as u32;
    if n < 0x80 {
        1
    } else if n < 0x800 {
        2
    } else if n < 0x10000 {
        3
    } else {
        4
    }
}

/// Length in bytes of the UTF-8 encoding of `s`.
pub open spec fn byte_len(s: Seq<char>) -> nat
    decreases s.len(),
{
    if s.len() == 0 {
        0
    } else {
        byte_len(s.drop_last()) + utf8_width(s.last())
    }
}

/// Byte offset at which the character with index `i` starts.
pub open spec fn byte_at(s: Seq<char>, i: int) -> nat {
    byte_len(s.take(i))
}

pub proof fn lemma_take_step<A>(s: Seq<A>, i: int)
    requires
        0 <= i < s.len(),
    ensures
        s.take(i + 1).drop_last() == s.take(i),
        s.take(i + 1).last() == s[i],
        s.take(i + 1) == s.take(i).push(s[i]),
{
    assert(s.take(i + 1).drop_last() =~= s.take(i));
    assert(s.take(i + 1) =~= s.take(i).push(s[i]));
}

pub proof fn lemma_take_full<A>(s: Seq<A>)
    ensures
        s.take(s.len() as int) == s,
{
    assert(s.take(s.len() as int) =~= s);
}

/// Byte offsets strictly grow with the character index.
pub proof fn lemma_byte_at_mono(s: Seq<char>, i: int, j: int)
    requires
        0 <= i < j <= s.len(),
    ensures
        byte_at(s, i) < byte_at(s, j),
    decreases j - i,
{
    lemma_take_step(s, j - 1);
    if i < j - 1 {
        lemma_byte_at_mono(s, i, j - 1);
    }
}

pub proof fn lemma_byte_at_le(s: Seq<char>, i: int, j: int)
    requires
        0 <= i <= j <= s.len(),
    ensures
        byte_at(s, i) <= byte_at(s, j),
{
    if i < j {
        lemma_byte_at_mono(s, i, j);
    }
}

/// The index of the character that starts at byte `b`, if any.
pub open spec fn char_index_of(s: Seq<char>, b: int) -> Option<int> {
    if exists|i: int| 0 <= i <= s.len() && #[trigger] byte_at(s, i) == b {
        Some(choose|i: int| 0 <= i <= s.len() && #[trigger] byte_at(s, i) == b)
    } else {
        None
    }
}

pub proof fn lemma_char_index_unique(s: Seq<char>, i: int, j: int)
    requires
        0 <= i <= s.len(),
        0 <= j <= s.len(),
        byte_at(s, i) == byte_at(s, j),
    ensures
        i == j,
{
    if i < j {
        lemma_byte_at_mono(s, i, j);
    }
    if j < i {
        lemma_byte_at_mono(s, j, i);
    }
}

/// Character index of byte offset `b` in `v`.
pub fn char_index_at_byte(v: &Vec<char>, b: usize) -> (r: Option<usize>)
    ensures
        r == (match char_index_of(v@, b as int) {
            Some(i) => Some(i as usize),
            None => None::<usize>,
        }),
        r matches Some(i) ==> i <= v.len() && byte_at(v@, i as int) == b,
{
    let mut i: usize = 0;
    let mut acc: usize = 0;
    proof {
        assert(v@.take(0) =~= Seq::<char>::empty());
    }
    while i < v.len() && acc < b
        invariant
            0 <= i <= v.len(),
            acc == byte_at(v@, i as int),
            acc <= b,
            forall|j: int| 0 <= j < i ==> byte_at(v@, j) < b,
        decreases v.len() - i,
    {
        proof {
            lemma_take_step(v@, i as int);
        }
        let w = char_width(v[i]);
        proof {
            assert forall|j: int| 0 <= j < i + 1 implies byte_at(v@, j) < b by {
                if j < i {
                } else {
                    assert(j == i);
                }
            }
        }
        if w > b - acc {
            // the next offset jumps over `b`
            proof {
                assert forall|j: int| 0 <= j <= v.len() implies byte_at(v@, j) != b by {
                    if j > i {
                        lemma_byte_at_le(v@, i as int + 1, j);
                    }
                }
                assert(!(exists|j: int| 0 <= j <= v.len() && #[trigger] byte_at(v@, j) == b as int));
            }
            return None;
        }
        acc = acc + w;
        i = i + 1;
    }
    if acc == b {
        proof {
            assert(byte_at(v@, i as int) == b);
            let k = choose|k: int| 0 <= k <= v@.len() && #[trigger] byte_at(v@, k) == b as int;
            lemma_char_index_unique(v@, i as int, k);
        }
        Some(i)
    } else {
        proof {
            assert(i == v.len());
            assert forall|j: int| 0 <= j <= v.len() implies byte_at(v@, j) != b by {
                if j == i {
                } else {
                }
            }
            assert(!(exists|j: int| 0 <= j <= v.len() && #[trigger] byte_at(v@, j) == b as int));
        }
        None
    }
}

pub proof fn lemma_byte_len_first(s: Seq<char>)
    requires
        s.len() > 0,
    ensures
        byte_len(s) == utf8_width(s[0]) + byte_len(s.drop_first()),
    decreases s.len(),
{
    if s.len() > 1 {
        lemma_byte_len_first(s.drop_last());
        assert(s.drop_last().drop_first() =~= s.drop_first().drop_last());
        assert(s.drop_first().last() == s.last());
        assert(s.drop_last()[0] == s[0]);
        assert(byte_len(s.drop_first()) == byte_len(s.drop_first().drop_last()) + utf8_width(
            s.drop_first().last(),
        ));
    } else {
        assert(s.drop_first().len() == 0);
        assert(s.drop_last().len() == 0);
        assert(byte_len(s.drop_last()) == 0);
        assert(byte_len(s.drop_first()) == 0);
        assert(s.last() == s[0]);
    }
}

pub proof fn lemma_encode_scalar_len(c: char)
    ensures
        vstd::utf8::encode_scalar(c as u32).len() == utf8_width(c),
{
    let v = c as u32;
    assert(v <= 0x10FFFF);
    assert(!(0xD800 <= v <= 0xDFFF));
}

pub proof fn lemma_encode_len(s: Seq<char>)
    ensures
        vstd::utf8::encode_utf8(s).len() == byte_len(s),
    decreases s.len(),
{
    if s.len() > 0 {
        lemma_byte_len_first(s);
        lemma_encode_len(s.drop_first());
        lemma_encode_scalar_len(s[0]);
    }
}

/// Byte length of a string slice.
pub fn str_byte_len(s: &str) -> (n: usize)
    ensures
        n == byte_len(s@),
{
    let b = s.as_bytes();
    proof {
        lemma_encode_len(s@);
    }
    b.len()
}

// ---------------------------------------------------------------------------
// Conversions between `str` and character vectors
// ---------------------------------------------------------------------------

pub fn chars_of(s: &str) -> (r: Vec<char>)
    ensures
        r@ == s@,
{
    let mut r: Vec<char> = Vec::new();
    for c in it: s.chars()
        invariant
            r@ == it.seq().take(it.index() as int),
            it.seq() == s@,
    {
        r.push(c);
    }
    r
}

/// `String::push`.
#[verifier::external_body]
fn push_char(s: &mut String, c: char)
    ensures
        final(s)@ == old(s)@.push(c),
{
    s.push(c);
}

pub fn string_of(v: &Vec<char>) -> (r: String)
    ensures
        r@ == v@,
{
    let mut r = String::new();
    let mut i: usize = 0;
    while i < v.len()
        invariant
            0 <= i <= v.len(),
            r@ == v@.take(i as int),
        decreases v.len() - i,
    {
        proof {
            lemma_take_step(v@, i as int);
        }
        push_char(&mut r, v[i]);
        i = i + 1;
    }
    proof {
        lemma_take_full(v@);
    }
    r
}

/// `v@.subrange(a, b)` as a new vector.
pub fn slice(v: &Vec<char>, a: usize, b: usize) -> (r: Vec<char>)
    requires
        a <= b <= v.len(),
    ensures
        r@ == v@.subrange(a as int, b as int),
{
    let mut r: Vec<char> = Vec::new();
    let mut i: usize = a;
    while i < b
        invariant
            a <= i <= b <= v.len(),
            r@ == v@.subrange(a as int, i as int),
        decreases b - i,
    {
        proof {
            assert(v@.subrange(a as int, i + 1) =~= v@.subrange(a as int, i as int).push(v@[i as int]));
        }
        r.push(v[i]);
        i = i + 1;
    }
    r
}

pub fn concat(a: &Vec<char>, b: &Vec<char>) -> (r: Vec<char>)
    ensures
        r@ == a@ + b@,
{
    let mut r = slice(a, 0, a.len());
    let mut i: usize = 0;
    proof {
        assert(a@.subrange(0, a.len() as int) =~= a@);
    }
    while i < b.len()
        invariant
            0 <= i <= b.len(),
            r@ == a@ + b@.take(i as int),
        decreases b.len() - i,
    {
        proof {
            lemma_take_step(b@, i as int);
            assert(a@ + b@.take(i + 1) =~= (a@ + b@.take(i as int)).push(b@[i as int]));
        }
        r.push(b[i]);
        i = i + 1;
    }
    proof {
        lemma_take_full(b@);
    }
    r
}

/// Appends `b` to `a`.
pub fn append(a: &mut Vec<char>, b: &Vec<char>)
    ensures
        final(a)@ == old(a)@ + b@,
{
    let mut i: usize = 0;
    let ghost a0 = a@;
    while i < b.len()
        invariant
            0 <= i <= b.len(),
            a@ == a0 + b@.take(i as int),
        decreases b.len() - i,
    {
        proof {
            lemma_take_step(b@, i as int);
            assert(a0 + b@.take(i + 1) =~= (a0 + b@.take(i as int)).push(b@[i as int]));
        }
        a.push(b[i]);
        i = i + 1;
    }
    proof {
        lemma_take_full(b@);
    }
}

pub fn append_str(a: &mut Vec<char>, b: &str)
    ensures
        final(a)@ == old(a)@ + b@,
{
    let v = chars_of(b);
    append(a, &v);
}

pub fn eq_chars(a: &Vec<char>, b: &Vec<char>) -> (r: bool)
    ensures
        r == (a@ == b@),
{
    if a.len() != b.len() {
        return false;
    }
    let mut i: usize = 0;
    while i < a.len()
        invariant
            0 <= i <= a.len(),
            a.len() == b.len(),
            a@.take(i as int) == b@.take(i as int),
        decreases a.len() - i,
    {
        proof {
            lemma_take_step(a@, i as int);
            lemma_take_step(b@, i as int);
        }
        if a[i] != b[i] {
            return false;
        }
        i = i + 1;
    }
    proof {
        lemma_take_full(a@);
        lemma_take_full(b@);
    }
    true
}

// ---------------------------------------------------------------------------
// Trimming
// ---------------------------------------------------------------------------

pub open spec fn trim_start_s(s: Seq<char>) -> Seq<char>
    decreases s.len(),
{
    if s.len() > 0 && is_ws(s[0]) {
        trim_start_s(s.drop_first())
    } else {
        s
    }
}

pub open spec fn trim_end_s(s: Seq<char>) -> Seq<char>
    decreases s.len(),
{
    if s.len() > 0 && is_ws(s.last()) {
        trim_end_s(s.drop_last())
    } else {
        s
    }
}

/// `str::trim`.
pub open spec fn trim_s(s: Seq<char>) -> Seq<char> {
    trim_end_s(trim_start_s(s))
}

/// Number of leading whitespace characters.
pub fn lead_ws(v: &Vec<char>) -> (i: usize)
    ensures
        i <= v.len(),
        trim_start_s(v@) == v@.skip(i as int),
{
    let mut i: usize = 0;
    proof {
        assert(v@.skip(0) =~= v@);
    }
    while i < v.len() && is_whitespace(v[i])
        invariant
            0 <= i <= v.len(),
            trim_start_s(v@) == trim_start_s(v@.skip(i as int)),
        decreases v.len() - i,
    {
        proof {
            assert(v@.skip(i as int).drop_first() =~= v@.skip(i + 1));
        }
        i = i + 1;
    }
    i
}

/// Index just after the last non-whitespace character.
pub fn trail_ws_end(v: &Vec<char>) -> (j: usize)
    ensures
        j <= v.len(),
        trim_end_s(v@) == v@.take(j as int),
{
    let mut j: usize = v.len();
    proof {
        lemma_take_full(v@);
    }
    while j > 0 && is_whitespace(v[j - 1])
        invariant
            0 <= j <= v.len(),
            trim_end_s(v@) == trim_end_s(v@.take(j as int)),
        decreases j,
    {
        proof {
            assert(v@.take(j as int).drop_last() =~= v@.take(j - 1));
        }
        j = j - 1;
    }
    j
}

pub fn trim_start(v: &Vec<char>) -> (r: Vec<char>)
    ensures
        r@ == trim_start_s(v@),
{
    let i = lead_ws(v);
    proof {
        assert(v@.skip(i as int) =~= v@.subrange(i as int, v.len() as int));
    }
    slice(v, i, v.len())
}

pub fn trim_end(v: &Vec<char>) -> (r: Vec<char>)
    ensures
        r@ == trim_end_s(v@),
{
    let j = trail_ws_end(v);
    proof {
        assert(v@.take(j as int) =~= v@.subrange(0, j as int));
    }
    slice(v, 0, j)
}

pub fn trim(v: &Vec<char>) -> (r: Vec<char>)
    ensures
        r@ == trim_s(v@),
{
    let a = trim_start(v);
    trim_end(&a)
}

pub fn trim_str(s: &str) -> (r: Vec<char>)
    ensures
        r@ == trim_s(s@),
{
    let v = chars_of(s);
    trim(&v)
}

/// Trimming the end of `x + y` leaves `x` alone when `y` holds a character
/// other than whitespace.
pub proof fn lemma_trim_end_concat(x: Seq<char>, y: Seq<char>, k: int)
    requires
        0 <= k < y.len(),
        !is_ws(y[k]),
    ensures
        trim_end_s(x + y) == x + trim_end_s(y),
    decreases y.len(),
{
    let xy = x + y;
    assert(xy.last() == y.last());
    if is_ws(y.last()) {
        assert(k < y.len() - 1);
        assert(xy.drop_last() =~= x + y.drop_last());
        assert(y.drop_last()[k] == y[k]);
        lemma_trim_end_concat(x, y.drop_last(), k);
    } else {
        assert(trim_end_s(y) == y);
    }
}

pub proof fn lemma_trim_start_no_lead(s: Seq<char>)
    ensures
        trim_start_s(s).len() > 0 ==> !is_ws(trim_start_s(s)[0]),
        trim_start_s(s).len() <= s.len(),
    decreases s.len(),
{
    if s.len() > 0 && is_ws(s[0]) {
        lemma_trim_start_no_lead(s.drop_first());
    }
}

proof fn lemma_trim_end_prefix(s: Seq<char>)
    ensures
        trim_end_s(s) =~= s.take(trim_end_s(s).len() as int),
        trim_end_s(s).len() <= s.len(),
    decreases s.len(),
{
    if s.len() > 0 && is_ws(s.last()) {
        lemma_trim_end_prefix(s.drop_last());
    }
}

/// Trimming trimmed text changes nothing.
pub proof fn lemma_trim_idempotent(s: Seq<char>)
    ensures
        trim_s(trim_s(s)) == trim_s(s),
{
    let u = trim_start_s(s);
    let t = trim_end_s(u);
    lemma_trim_start_no_lead(s);
    lemma_trim_end_no_trail(u);
    lemma_trim_end_prefix(u);
    if t.len() > 0 {
        assert(t[0] == u[0]);
        assert(trim_start_s(t) == t);
        assert(trim_end_s(t) == t);
    } else {
        assert(trim_start_s(t) == t);
        assert(trim_end_s(t) == t);
    }
}

pub proof fn lemma_trim_end_no_trail(s: Seq<char>)
    ensures
        trim_end_s(s).len() > 0 ==> !is_ws(trim_end_s(s).last()),
        trim_end_s(s).len() <= s.len(),
    decreases s.len(),
{
    if s.len() > 0 && is_ws(s.last()) {
        lemma_trim_end_no_trail(s.drop_last());
    }
}

// ---------------------------------------------------------------------------
// Searching
// ---------------------------------------------------------------------------

/// `n` occurs in `h` at character index `i`.
pub open spec fn occurs_at(h: Seq<char>, n: Seq<char>, i: int) -> bool {
    0 <= i && i + n.len() <= h.len() && h.subrange(i, i + n.len()) == n
}

/// `str::contains` with a string pattern.
pub open spec fn contains_s(h: Seq<char>, n: Seq<char>) -> bool {
    exists|i: int| #[trigger] occurs_at(h, n, i)
}

pub open spec fn starts_with_s(h: Seq<char>, n: Seq<char>) -> bool {
    occurs_at(h, n, 0)
}

pub open spec fn ends_with_s(h: Seq<char>, n: Seq<char>) -> bool {
    occurs_at(h, n, h.len() - n.len())
}

/// First occurrence of `n` in `h`.
pub open spec fn find_s(h: Seq<char>, n: Seq<char>) -> Option<int> {
    if contains_s(h, n) {
        Some(choose|i: int| #[trigger] occurs_at(h, n, i) && forall|j: int| 0 <= j < i ==> !occurs_at(h, n, j))
    } else {
        None
    }
}

/// Last occurrence of `n` in `h`.
pub open spec fn rfind_s(h: Seq<char>, n: Seq<char>) -> Option<int> {
    if contains_s(h, n) {
        Some(choose|i: int| #[trigger] occurs_at(h, n, i) && forall|j: int| i < j ==> !occurs_at(h, n, j))
    } else {
        None
    }
}

pub fn matches_at(h: &Vec<char>, n: &Vec<char>, i: usize) -> (r: bool)
    ensures
        r == occurs_at(h@, n@, i as int),
{
    if i > h.len() || n.len() > h.len() - i {
        return false;
    }
    let mut k: usize = 0;
    while k < n.len()
        invariant
            0 <= k <= n.len(),
            i + n.len() <= h.len(),
            h@.subrange(i as int, i + k) == n@.take(k as int),
        decreases n.len() - k,
    {
        proof {
            lemma_take_step(n@, k as int);
            assert(h@.subrange(i as int, i + k + 1) =~= h@.subrange(i as int, i + k).push(h@[i + k]));
        }
        if h[i + k] != n[k] {
            proof {
                assert(h@.subrange(i as int, i + n.len())[k as int] == h@[i + k]);
            }
            return false;
        }
        k = k + 1;
    }
    proof {
        lemma_take_full(n@);
    }
    true
}

pub fn find(h: &Vec<char>, n: &Vec<char>) -> (r: Option<usize>)
    ensures
        r == (match find_s(h@, n@) {
            Some(i) => Some(i as usize),
            None => None::<usize>,
        }),
        r matches Some(i) ==> occurs_at(h@, n@, i as int) && find_s(h@, n@) == Some(i as int),
        r is None ==> find_s(h@, n@) is None,
{
    find_from(h, n, 0)
}

/// First occurrence at an index `>= from`; the result agrees with `find_s`
/// when nothing occurs before `from`.
pub proof fn lemma_find_some(h: Seq<char>, n: Seq<char>, i: int)
    requires
        occurs_at(h, n, i),
        forall|j: int| 0 <= j < i ==> !occurs_at(h, n, j),
    ensures
        find_s(h, n) == Some(i),
{
    assert(contains_s(h, n));
    let k = choose|k: int|
        #[trigger] occurs_at(h, n, k) && forall|j: int| 0 <= j < k ==> !occurs_at(h, n, j);
    if k < i {
        assert(!occurs_at(h, n, k));
    }
    if k > i {
        assert(!occurs_at(h, n, i));
    }
}

pub proof fn lemma_find_none(h: Seq<char>, n: Seq<char>)
    requires
        forall|j: int| 0 <= j ==> !occurs_at(h, n, j),
    ensures
        find_s(h, n) is None,
{
    assert forall|j: int| #[trigger] occurs_at(h, n, j) implies false by {
        if j >= 0 {
        }
    }
}

pub fn find_from(h: &Vec<char>, n: &Vec<char>, from: usize) -> (r: Option<usize>)
    ensures
        r matches Some(i) ==> from <= i && occurs_at(h@, n@, i as int) && forall|j: int|
            from <= j < i ==> !occurs_at(h@, n@, j),
        r is None ==> forall|j: int| from <= j ==> !occurs_at(h@, n@, j),
        from == 0 ==> r == (match find_s(h@, n@) {
            Some(i) => Some(i as usize),
            None => None::<usize>,
        }),
        from == 0 ==> (r matches Some(i) ==> find_s(h@, n@) == Some(i as int)),
        from == 0 ==> (r is None ==> find_s(h@, n@) is None),
{
    if n.len() > h.len() || from > h.len() - n.len() {
        proof {
            assert forall|j: int| from <= j implies !occurs_at(h@, n@, j) by {}
            if from == 0 {
                lemma_find_none(h@, n@);
            }
        }
        return None;
    }
    let last = h.len() - n.len();
    let mut i: usize = from;
    loop
        invariant
            from <= i <= last,
            last == h.len() - n.len(),
            n.len() <= h.len(),
            forall|j: int| from <= j < i ==> !occurs_at(h@, n@, j),
        decreases last - i,
    {
        if matches_at(h, n, i) {
            proof {
                if from == 0 {
                    lemma_find_some(h@, n@, i as int);
                }
            }
            return Some(i);
        }
        if i == last {
            proof {
                assert forall|j: int| from <= j implies !occurs_at(h@, n@, j) by {
                    if j > last {
                    }
                }
                if from == 0 {
                    lemma_find_none(h@, n@);
                }
            }
            return None;
        }
        i = i + 1;
    }
}

pub fn rfind(h: &Vec<char>, n: &Vec<char>) -> (r: Option<usize>)
    ensures
        r == (match rfind_s(h@, n@) {
            Some(i) => Some(i as usize),
            None => None::<usize>,
        }),
        r matches Some(i) ==> occurs_at(h@, n@, i as int) && rfind_s(h@, n@) == Some(i as int),
        r is None ==> rfind_s(h@, n@) is None,
{
    if n.len() > h.len() {
        proof {
            assert(!contains_s(h@, n@));
        }
        return None;
    }
    let mut i: usize = h.len() - n.len();
    loop
        invariant
            0 <= i <= h.len() - n.len(),
            n.len() <= h.len(),
            forall|j: int| i < j ==> !occurs_at(h@, n@, j),
        decreases i,
    {
        if matches_at(h, n, i) {
            proof {
                assert(contains_s(h@, n@));
                let k = choose|k: int|
                    #[trigger] occurs_at(h@, n@, k) && forall|j: int| k < j ==> !occurs_at(h@, n@, j);
                if k < i {
                    assert(!occurs_at(h@, n@, i as int));
                }
                if k > i {
                    assert(!occurs_at(h@, n@, k));
                }
            }
            return Some(i);
        }
        if i == 0 {
            proof {
                assert forall|j: int| #[trigger] occurs_at(h@, n@, j) implies false by {
                    if j >= 0 {
                    }
                }
                assert(!contains_s(h@, n@));
            }
            return None;
        }
        i = i - 1;
    }
}

pub fn contains(h: &Vec<char>, n: &Vec<char>) -> (r: bool)
    ensures
        r == contains_s(h@, n@),
{
    find(h, n).is_some()
}

pub fn contains_str(h: &Vec<char>, n: &str) -> (r: bool)
    ensures
        r == contains_s(h@, n@),
{
    let nv = chars_of(n);
    contains(h, &nv)
}

pub fn starts_with(h: &Vec<char>, n: &Vec<char>) -> (r: bool)
    ensures
        r == starts_with_s(h@, n@),
{
    matches_at(h, n, 0)
}

pub fn starts_with_str(h: &Vec<char>, n: &str) -> (r: bool)
    ensures
        r == starts_with_s(h@, n@),
{
    let nv = chars_of(n);
    matches_at(h, &nv, 0)
}

pub fn ends_with(h: &Vec<char>, n: &Vec<char>) -> (r: bool)
    ensures
        r == ends_with_s(h@, n@),
{
    if n.len() > h.len() {
        return false;
    }
    matches_at(h, n, h.len() - n.len())
}

pub fn ends_with_str(h: &Vec<char>, n: &str) -> (r: bool)
    ensures
        r == ends_with_s(h@, n@),
{
    let nv = chars_of(n);
    ends_with(h, &nv)
}

pub open spec fn has_char(s: Seq<char>, c: char) -> bool {
    exists|i: int| 0 <= i < s.len() && s[i] == c
}

pub fn contains_char(v: &Vec<char>, c: char) -> (r: bool)
    ensures
        r == has_char(v@, c),
{
    let mut i: usize = 0;
    while i < v.len()
        invariant
            0 <= i <= v.len(),
            forall|j: int| 0 <= j < i ==> v@[j] != c,
        decreases v.len() - i,
    {
        if v[i] == c {
            return true;
        }
        i = i + 1;
    }
    false
}

// ---------------------------------------------------------------------------
// Lines
// ---------------------------------------------------------------------------

/// Drops one trailing `'\r'`.
pub open spec fn strip_cr(s: Seq<char>) -> Seq<char> {
    if s.len() > 0 && s.last() == '\r' {
        s.drop_last()
    } else {
        s
    }
}

/// Finished lines and the current partial line after reading `s`.
pub open spec fn line_state(s: Seq<char>) -> (Seq<Seq<char>>, Seq<char>)
    decreases s.len(),
{
    if s.len() == 0 {
        (seq![], seq![])
    } else {
        let (done, cur) = line_state(s.drop_last());
        if s.last() == '\n' {
            (done.push(strip_cr(cur)), seq![])
        } else {
            (done, cur.push(s.last()))
        }
    }
}

/// No character of `s` is a line break.
pub open spec fn no_newline(s: Seq<char>) -> bool {
    forall|i: int| 0 <= i < s.len() ==> s[i] != '\n'
}

proof fn lemma_line_state_no_newline(s: Seq<char>)
    ensures
        no_newline(line_state(s).1),
        forall|k: int| 0 <= k < line_state(s).0.len() ==> no_newline(#[trigger] line_state(s).0[k]),
    decreases s.len(),
{
    if s.len() > 0 {
        lemma_line_state_no_newline(s.drop_last());
        let (done, cur) = line_state(s.drop_last());
        let st = line_state(s);
        if s.last() == '\n' {
            let c2 = strip_cr(cur);
            assert(no_newline(c2)) by {
                assert forall|i: int| 0 <= i < c2.len() implies c2[i] != '\n' by {
                    assert(c2[i] == cur[i]);
                }
            }
            assert forall|k: int| 0 <= k < st.0.len() implies no_newline(#[trigger] st.0[k]) by {
                if k < done.len() {
                    assert(st.0[k] == done[k]);
                }
            }
        } else {
            let c2 = cur.push(s.last());
            assert forall|i: int| 0 <= i < c2.len() implies c2[i] != '\n' by {
                if i < cur.len() {
                    assert(c2[i] == cur[i]);
                }
            }
        }
    }
}

/// No line holds a line break.
pub proof fn lemma_lines_no_newline(s: Seq<char>)
    ensures
        forall|k: int| 0 <= k < lines_s(s).len() ==> no_newline(#[trigger] lines_s(s)[k]),
{
    lemma_line_state_no_newline(s);
    let (done, cur) = line_state(s);
    assert forall|k: int| 0 <= k < lines_s(s).len() implies no_newline(#[trigger] lines_s(s)[k]) by {
        if k < done.len() {
            assert(lines_s(s)[k] == done[k]);
        }
    }
}

proof fn lemma_trim_start_no_newline(s: Seq<char>)
    requires
        no_newline(s),
    ensures
        no_newline(trim_start_s(s)),
    decreases s.len(),
{
    if s.len() > 0 && is_ws(s[0]) {
        let r = s.drop_first();
        assert forall|i: int| 0 <= i < r.len() implies r[i] != '\n' by {
            assert(r[i] == s[i + 1]);
        }
        lemma_trim_start_no_newline(r);
    }
}

proof fn lemma_trim_end_no_newline(s: Seq<char>)
    requires
        no_newline(s),
    ensures
        no_newline(trim_end_s(s)),
    decreases s.len(),
{
    if s.len() > 0 && is_ws(s.last()) {
        let r = s.drop_last();
        assert forall|i: int| 0 <= i < r.len() implies r[i] != '\n' by {
            assert(r[i] == s[i]);
        }
        lemma_trim_end_no_newline(r);
    }
}

/// Trimming adds no line break.
pub proof fn lemma_trim_no_newline(s: Seq<char>)
    requires
        no_newline(s),
    ensures
        no_newline(trim_s(s)),
{
    lemma_trim_start_no_newline(s);
    lemma_trim_end_no_newline(trim_start_s(s));
}

proof fn lemma_line_state_append(p: Seq<char>, t: Seq<char>)
    requires
        no_newline(t),
    ensures
        line_state(p + t) == (line_state(p).0, line_state(p).1 + t),
    decreases t.len(),
{
    if t.len() == 0 {
        assert(p + t =~= p);
        assert(line_state(p).1 + t =~= line_state(p).1);
    } else {
        let t0 = t.drop_last();
        assert forall|i: int| 0 <= i < t0.len() implies t0[i] != '\n' by {
            assert(t0[i] == t[i]);
        }
        lemma_line_state_append(p, t0);
        assert((p + t).drop_last() =~= p + t0);
        assert((p + t).last() == t[t.len() - 1]);
        assert(line_state(p).1 + t0 + seq![t.last()] =~= line_state(p).1 + t);
        assert((line_state(p).1 + t0).push(t.last()) =~= line_state(p).1 + t);
    }
}

/// Pieces without line breaks, each not empty and not ending in `\r`,
/// joined by `\n`.
pub open spec fn join_pieces(ps: Seq<Seq<char>>) -> Seq<char>
    decreases ps.len(),
{
    if ps.len() == 0 {
        seq![]
    } else if ps.len() == 1 {
        ps[0]
    } else {
        join_pieces(ps.drop_last()) + seq!['\n'] + ps.last()
    }
}

/// Splitting such pieces, joined by line breaks, into lines gives them
/// back.
pub proof fn lemma_lines_of_joined(ps: Seq<Seq<char>>)
    requires
        forall|k: int|
            0 <= k < ps.len() ==> no_newline(#[trigger] ps[k]) && ps[k].len() > 0 && ps[k].last()
                != '\r',
    ensures
        lines_s(join_pieces(ps)) == ps,
        ps.len() > 0 ==> line_state(join_pieces(ps)) == (ps.drop_last(), ps.last()),
    decreases ps.len(),
{
    if ps.len() == 1 {
        lemma_line_state_append(seq![], ps[0]);
        assert(Seq::<char>::empty() + ps[0] =~= ps[0]);
        assert(line_state(Seq::<char>::empty()) == (Seq::<Seq<char>>::empty(), Seq::<char>::empty()));
        assert(Seq::<char>::empty() + ps[0] =~= ps[0]);
        assert(ps.drop_last() =~= Seq::<Seq<char>>::empty());
        assert(seq![ps[0]] =~= ps);
    } else if ps.len() > 1 {
        let q = ps.drop_last();
        assert forall|k: int| 0 <= k < q.len() implies no_newline(#[trigger] q[k]) && q[k].len() > 0
            && q[k].last() != '\r' by {
            assert(q[k] == ps[k]);
        }
        lemma_lines_of_joined(q);
        let jq = join_pieces(q);
        let a = jq + seq!['\n'];
        assert(a.drop_last() =~= jq);
        assert(a.last() == '\n');
        let lastq = q.last();
        assert(strip_cr(lastq) == lastq);
        assert(line_state(a) == (q.drop_last().push(lastq), Seq::<char>::empty()));
        assert(q.drop_last().push(lastq) =~= q);
        assert(no_newline(ps[ps.len() - 1]));
        lemma_line_state_append(a, ps.last());
        assert(Seq::<char>::empty() + ps.last() =~= ps.last());
        assert(q.push(ps.last()) =~= ps);
    } else {
        assert(line_state(Seq::<char>::empty()) == (Seq::<Seq<char>>::empty(), Seq::<char>::empty()));
    }
}

/// `str::lines`: split at `\n` (a `\r` before it goes too); no empty last line.
pub open spec fn lines_s(s: Seq<char>) -> Seq<Seq<char>> {
    let (done, cur) = line_state(s);
    if cur.len() > 0 {
        done.push(cur)
    } else {
        done
    }
}

/// The views of a sequence of character vectors.
pub open spec fn vviews(s: Seq<Vec<char>>) -> Seq<Seq<char>> {
    s.map_values(|x: Vec<char>| x@)
}

pub fn lines(v: &Vec<char>) -> (r: Vec<Vec<char>>)
    ensures
        vviews(r@) == lines_s(v@),
{
    let mut done: Vec<Vec<char>> = Vec::new();
    let mut cur: Vec<char> = Vec::new();
    let mut i: usize = 0;
    proof {
        assert(v@.take(0) =~= Seq::<char>::empty());
        assert(vviews(done@) =~= Seq::<Seq<char>>::empty());
    }
    while i < v.len()
        invariant
            0 <= i <= v.len(),
            (vviews(done@), cur@) == line_state(v@.take(i as int)),
        decreases v.len() - i,
    {
        proof {
            lemma_take_step(v@, i as int);
        }
        let c = v[i];
        if c == '\n' {
            let mut line = cur;
            if line.len() > 0 && line[line.len() - 1] == '\r' {
                line.pop();
            }
            proof {
                assert(line@ =~= strip_cr(line_state(v@.take(i as int)).1));
            }
            let ghost old_done = done@;
            done.push(line);
            proof {
                assert(vviews(done@) =~= vviews(old_done).push(line@));
            }
            cur = Vec::new();
        } else {
            cur.push(c);
        }
        i = i + 1;
    }
    proof {
        lemma_take_full(v@);
    }
    if cur.len() > 0 {
        let ghost old_done = done@;
        let ghost c0 = cur@;
        done.push(cur);
        proof {
            assert(vviews(done@) =~= vviews(old_done).push(c0));
        }
    }
    done
}

// ---------------------------------------------------------------------------
// Decimal numbers
// ---------------------------------------------------------------------------

pub open spec fn digit_char(d: nat) -> char {
    (48 + d) as char
}

pub fn digit_of(d: u64) -> (c: char)
    requires
        d < 10,
    ensures
        c == digit_char(d as nat),
        is_digit(c),
{
    let c = char_of_ascii((48 + d) as u32);
    c
}

/// Decimal digits of `n` (the `Display` of an unsigned integer).
pub open spec fn decimal(n: nat) -> Seq<char>
    decreases n,
{
    if n < 10 {
        seq![digit_char(n)]
    } else {
        decimal(n / 10).push(digit_char(n % 10))
    }
}

proof fn lemma_decimal_shape(n: nat)
    ensures
        decimal(n).len() >= 1,
        n >= 10 ==> decimal(n).len() >= 2,
        decimal(n)[0] != '-',
    decreases n,
{
    if n >= 10 {
        lemma_decimal_shape(n / 10);
    }
}

/// Different numbers have different decimal digits.
pub proof fn lemma_decimal_injective(a: nat, b: nat)
    requires
        decimal(a) == decimal(b),
    ensures
        a == b,
    decreases a,
{
    lemma_decimal_shape(a);
    lemma_decimal_shape(b);
    if a >= 10 && b >= 10 {
        assert(decimal(a).drop_last() =~= decimal(a / 10));
        assert(decimal(b).drop_last() =~= decimal(b / 10));
        lemma_decimal_injective(a / 10, b / 10);
        assert(decimal(a).last() == digit_char(a % 10));
        assert(decimal(b).last() == digit_char(b % 10));
    }
}

/// Different signed numbers print differently.
pub proof fn lemma_decimal_int_injective(a: int, b: int)
    requires
        decimal_int(a) == decimal_int(b),
    ensures
        a == b,
{
    if a < 0 && b < 0 {
        assert(decimal_int(a).skip(1) =~= decimal((-a) as nat));
        assert(decimal_int(b).skip(1) =~= decimal((-b) as nat));
        lemma_decimal_injective((-a) as nat, (-b) as nat);
    } else if a < 0 {
        lemma_decimal_shape(b as nat);
        assert(decimal_int(a)[0] == '-');
    } else if b < 0 {
        lemma_decimal_shape(a as nat);
        assert(decimal_int(b)[0] == '-');
    } else {
        lemma_decimal_injective(a as nat, b as nat);
    }
}

/// `Display` of a signed integer.
pub open spec fn decimal_int(n: int) -> Seq<char> {
    if n < 0 {
        seq!['-'] + decimal((-n) as nat)
    } else {
        decimal(n as nat)
    }
}

pub fn push_decimal(out: &mut Vec<char>, n: u64)
    ensures
        final(out)@ == old(out)@ + decimal(n as nat),
    decreases n,
{
    let ghost o = out@;
    if n >= 10 {
        push_decimal(out, n / 10);
    }
    let c = digit_of(n % 10);
    out.push(c);
    proof {
        if n >= 10 {
            assert(out@ =~= o + decimal(n as nat));
        } else {
            assert(out@ =~= o + decimal(n as nat));
        }
    }
}

pub fn push_decimal_i64(out: &mut Vec<char>, n: i64)
    ensures
        final(out)@ == old(out)@ + decimal_int(n as int),
{
    if n < 0 {
        let ghost o = out@;
        out.push('-');
        let m: u64 = if n == i64::MIN {
            9223372036854775808u64
        } else {
            (-n) as u64
        };
        push_decimal(out, m);
        proof {
            assert(out@ =~= o + decimal_int(n as int));
        }
    } else {
        push_decimal(out, n as u64);
    }
}

pub open spec fn all_digits(s: Seq<char>) -> bool {
    forall|i: int| 0 <= i < s.len() ==> is_digit(#[trigger] s[i])
}

pub open spec fn digit_value(c: char) -> nat {
    ((c as u32) - 48) as nat
}

/// Value of a string of decimal digits.
pub open spec fn digits_value(s: Seq<char>) -> nat
    decreases s.len(),
{
    if s.len() == 0 {
        0
    } else {
        digits_value(s.drop_last()) * 10 + digit_value(s.last())
    }
}

/// Parses a non-empty run of ASCII digits that fits in a `u32`.
pub open spec fn parse_u32_s(s: Seq<char>) -> Option<u32> {
    if s.len() > 0 && all_digits(s) && digits_value(s) <= u32::MAX {
        Some(digits_value(s) as u32)
    } else {
        None
    }
}

pub fn parse_u32(v: &Vec<char>) -> (r: Option<u32>)
    ensures
        r == parse_u32_s(v@),
{
    if v.len() == 0 {
        return None;
    }
    let mut i: usize = 0;
    let mut acc: u64 = 0;
    let mut over = false;
    proof {
        assert(v@.take(0) =~= Seq::<char>::empty());
    }
    while i < v.len()
        invariant
            0 <= i <= v.len(),
            all_digits(v@.take(i as int)),
            !over ==> acc == digits_value(v@.take(i as int)) && acc <= u32::MAX,
            over ==> digits_value(v@.take(i as int)) > u32::MAX,
        decreases v.len() - i,
    {
        proof {
            lemma_take_step(v@, i as int);
        }
        let c = v[i];
        if !is_ascii_digit(c) {
            proof {
                assert(!is_digit(v@[i as int]));
                assert(!all_digits(v@));
            }
            return None;
        }
        let d: u64 = (c as u32 - 48) as u64;
        if !over {
            let next = acc * 10 + d;
            if next > 4294967295 {
                over = true;
            } else {
                acc = next;
            }
        }
        proof {
            assert(all_digits(v@.take(i + 1)));
        }
        i = i + 1;
    }
    proof {
        lemma_take_full(v@);
    }
    if over {
        None
    } else {
        Some(acc as u32)
    }
}

/// Parses a non-empty run of ASCII digits into an `i64` (at most 18 digits).
pub open spec fn parse_small_s(s: Seq<char>) -> Option<i64> {
    if s.len() > 0 && s.len() <= 18 && all_digits(s) {
        Some(digits_value(s) as i64)
    } else {
        None
    }
}

pub proof fn lemma_digits_value_bound(s: Seq<char>)
    requires
        all_digits(s),
    ensures
        digits_value(s) < pow10(s.len()),
    decreases s.len(),
{
    if s.len() > 0 {
        assert(all_digits(s.drop_last()));
        lemma_digits_value_bound(s.drop_last());
        assert(is_digit(s[s.len() - 1]));
    }
}

pub open spec fn pow10(n: nat) -> nat
    decreases n,
{
    if n == 0 {
        1
    } else {
        10 * pow10((n - 1) as nat)
    }
}

pub proof fn lemma_pow10_18(n: nat)
    requires
        n <= 18,
    ensures
        pow10(n) <= 1_000_000_000_000_000_000,
{
    reveal_with_fuel(pow10, 19);
    assert(pow10(18) == 1_000_000_000_000_000_000);
    lemma_pow10_mono(n, 18);
}

pub proof fn lemma_pow10_mono(a: nat, b: nat)
    requires
        a <= b,
    ensures
        pow10(a) <= pow10(b),
    decreases b,
{
    if a < b {
        lemma_pow10_mono(a, (b - 1) as nat);
    }
}

pub fn parse_small(v: &Vec<char>) -> (r: Option<i64>)
    ensures
        r == parse_small_s(v@),
{
    if v.len() == 0 || v.len() > 18 {
        return None;
    }
    let mut i: usize = 0;
    let mut acc: u64 = 0;
    proof {
        assert(v@.take(0) =~= Seq::<char>::empty());
    }
    while i < v.len()
        invariant
            0 <= i <= v.len(),
            v.len() <= 18,
            all_digits(v@.take(i as int)),
            acc == digits_value(v@.take(i as int)),
        decreases v.len() - i,
    {
        proof {
            lemma_take_step(v@, i as int);
            lemma_digits_value_bound(v@.take(i as int));
            lemma_pow10_mono(i as nat, 17);
            lemma_pow10_18(17);
        }
        let c = v[i];
        if !is_ascii_digit(c) {
            proof {
                assert(!is_digit(v@[i as int]));
                assert(!all_digits(v@));
            }
            return None;
        }
        let d: u64 = (c as u32 - 48) as u64;
        acc = acc * 10 + d;
        proof {
            assert(all_digits(v@.take(i + 1)));
        }
        i = i + 1;
    }
    proof {
        lemma_take_full(v@);
        lemma_digits_value_bound(v@);
        lemma_pow10_18(v@.len());
    }
    Some(acc as i64)
}

// ---------------------------------------------------------------------------
// Case mapping (Unicode tables live in std)
// ---------------------------------------------------------------------------

/// What `str::to_lowercase` returns for a string.
pub uninterp spec fn lowercase_of(s: Seq<char>) -> Seq<char>;

/// What `str::to_uppercase` returns for a string.
pub uninterp spec fn uppercase_of(s: Seq<char>) -> Seq<char>;

/// What `char::is_lowercase` says of a character.
pub uninterp spec fn is_lowercase_char(c: char) -> bool;

/// Calls `str::to_lowercase` (full Unicode case mapping); the result is
/// named `lowercase_of` of the argument. std maps each character to one or
/// more characters, so the result is never shorter than the argument.
#[verifier::external_body]
pub(crate) fn to_lowercase(s: &str) -> (r: String)
    ensures
        r@ == lowercase_of(s@),
        r@.len() >= s@.len(),
{
    s.to_lowercase()
}

/// Calls `str::to_uppercase`; the result is named `uppercase_of` of the
/// argument. std maps each character to one or more characters, so the
/// result is never shorter than the argument.
#[verifier::external_body]
pub(crate) fn to_uppercase(s: &str) -> (r: String)
    ensures
        r@ == uppercase_of(s@),
        r@.len() >= s@.len(),
{
    s.to_uppercase()
}

/// Calls `char::is_lowercase` (the Unicode `Lowercase` property); the answer
/// is named `is_lowercase_char` of the argument.
#[verifier::external_body]
pub(crate) fn char_is_lowercase(c: char) -> (b: bool)
    ensures
        b == is_lowercase_char(c),
{
    c.is_lowercase()
}

pub fn lowercase_chars(v: &Vec<char>) -> (r: Vec<char>)
    ensures
        r@ == lowercase_of(v@),
{
    let s = string_of(v);
    let l = to_lowercase(s.as_str());
    chars_of(l.as_str())
}

} // verus!
