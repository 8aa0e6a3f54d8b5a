//! Small verified helpers on strings and byte vectors that the rest of
//! the crate shares.

use vstd::prelude::*;
use vstd::string::StringSliceAdditionalSpecFns;

verus! {

/// Byte-for-byte equality of two byte slices.
pub fn slice_eq_bytes(a: &[u8], b: &[u8]) -> (r: bool)
    ensures
        r == (a@ == b@),
{
    if a.len() != b.len() {
        proof {
            assert(a@ != b@);
        }
        return false;
    }
    let mut i: usize = 0;
    while i < a.len()
        invariant
            0 <= i <= a@.len(),
            a@.len() == b@.len(),
            forall|j: int| 0 <= j < i ==> a@[j] == b@[j],
        decreases a@.len() - i,
    {
        if a[i] != b[i] {
            return false;
        }
        i += 1;
    }
    proof {
        assert(a@ =~= b@);
    }
    true
}

/// Character-for-character equality of two strings, decided on their
/// UTF-8 bytes.
pub fn str_eq(a: &str, b: &str) -> (r: bool)
    ensures
        r == (a@ == b@),
{
    let r = slice_eq_bytes(a.as_bytes(), b.as_bytes());
    proof {
        if a.spec_bytes() == b.spec_bytes() {
            vstd::utf8::encode_utf8_decode_utf8(a@);
            vstd::utf8::encode_utf8_decode_utf8(b@);
            assert(a@ == b@);
        }
    }
    r
}


/// True for the ASCII whitespace bytes the configuration grammar knows:
/// space, tab, carriage return, line feed.
pub open spec fn is_ws(b: u8) -> bool {
    b == 0x20 || b == 0x09 || b == 0x0d || b == 0x0a
}

/// `s` without its leading whitespace.
pub open spec fn ltrim(s: Seq<u8>) -> Seq<u8>
    decreases s.len(),
{
    if s.len() > 0 && is_ws(s[0]) {
        ltrim(s.drop_first())
    } else {
        s
    }
}

/// `s` without its trailing whitespace.
pub open spec fn rtrim(s: Seq<u8>) -> Seq<u8>
    decreases s.len(),
{
    if s.len() > 0 && is_ws(s.last()) {
        rtrim(s.drop_last())
    } else {
        s
    }
}

/// `s` without leading and trailing whitespace.
pub open spec fn trim(s: Seq<u8>) -> Seq<u8> {
    rtrim(ltrim(s))
}

proof fn lemma_ltrim_skip(s: Seq<u8>, i: int)
    requires
        0 <= i <= s.len(),
        forall|j: int| 0 <= j < i ==> is_ws(s[j]),
    ensures
        ltrim(s) == ltrim(s.skip(i)),
    decreases i,
{
    if i > 0 {
        assert(is_ws(s[0]));
        assert(s.drop_first() =~= s.skip(1));
        lemma_ltrim_skip(s.skip(1), i - 1);
        assert(s.skip(1).skip(i - 1) =~= s.skip(i));
    } else {
        assert(s.skip(0) =~= s);
    }
}

proof fn lemma_ltrim_fixed(s: Seq<u8>)
    requires
        s.len() == 0 || !is_ws(s[0]),
    ensures
        ltrim(s) == s,
{
}

proof fn lemma_rtrim_take(s: Seq<u8>, i: int)
    requires
        0 <= i <= s.len(),
        forall|j: int| i <= j < s.len() ==> is_ws(s[j]),
    ensures
        rtrim(s) == rtrim(s.take(i)),
    decreases s.len() - i,
{
    if i < s.len() {
        assert(is_ws(s.last()));
        assert(s.drop_last() =~= s.take(s.len() - 1));
        lemma_rtrim_take(s.take(s.len() - 1), i);
        assert(s.take(s.len() - 1).take(i) =~= s.take(i));
    } else {
        assert(s.take(i) =~= s);
    }
}

proof fn lemma_rtrim_fixed(s: Seq<u8>)
    requires
        s.len() == 0 || !is_ws(s.last()),
    ensures
        rtrim(s) == s,
{
}


/// Whether the byte at `i` of `line` is configuration whitespace.
fn ws_at(line: &[u8], i: usize) -> (r: bool)
    requires
        i < line@.len(),
    ensures
        r == is_ws(line@[i as int]),
{
    let b = *vstd::slice::slice_index_get(line, i);
    b == 0x20 || b == 0x09 || b == 0x0d || b == 0x0a
}

/// The trimmed form of `line`, as a fresh byte vector.
pub fn trim_bytes(line: &[u8]) -> (r: Vec<u8>)
    ensures
        r@ == trim(line@),
{
    let n = line.len();
    let mut start: usize = 0;
    while start < n && ws_at(line, start)
        invariant
            0 <= start <= n,
            n == line@.len(),
            forall|j: int| 0 <= j < start ==> is_ws(line@[j]),
        decreases n - start,
    {
        start += 1;
    }
    proof {
        lemma_ltrim_skip(line@, start as int);
        if start < n {
            assert(line@.skip(start as int)[0] == line@[start as int]);
        }
        lemma_ltrim_fixed(line@.skip(start as int));
    }
    let mut end: usize = n;
    while end > start && ws_at(line, end - 1)
        invariant
            start <= end <= n,
            n == line@.len(),
            forall|j: int| 0 <= j < start ==> is_ws(line@[j]),
            forall|j: int| end <= j < n ==> is_ws(line@[j]),
        decreases end,
    {
        end -= 1;
    }
    let sub = vstd::slice::slice_subrange(line, start, end);
    proof {
        let lt = line@.skip(start as int);
        assert forall|j: int| end - start <= j < lt.len() implies is_ws(lt[j]) by {
            assert(lt[j] == line@[j + start]);
        }
        lemma_rtrim_take(lt, end - start);
        if end > start {
            assert(lt.take(end - start).last() == line@[end - 1]);
        }
        lemma_rtrim_fixed(lt.take(end - start));
        assert(lt.take(end - start) =~= sub@);
    }
    vstd::slice::slice_to_vec(sub)
}

/// The position after the first token of `s`: the least index holding a
/// whitespace byte, or the length when there is none.
pub open spec fn token_end(s: Seq<u8>) -> int {
    if exists|i: int| 0 <= i < s.len() && is_ws(s[i]) {
        choose|i: int|
            0 <= i < s.len() && is_ws(s[i]) && forall|j: int| 0 <= j < i ==> !is_ws(#[trigger] s[j])
    } else {
        s.len() as int
    }
}

/// The first whitespace-separated token of `s`.
pub open spec fn first_token(s: Seq<u8>) -> Seq<u8> {
    s.take(token_end(s))
}

/// What follows the first token of `s`, trimmed.
pub open spec fn rest_after_token(s: Seq<u8>) -> Seq<u8> {
    trim(s.skip(token_end(s)))
}

/// Splits `s` into its first whitespace-separated token and the trimmed
/// remainder.
pub fn split_first_token(s: &[u8]) -> (r: (Vec<u8>, Vec<u8>))
    ensures
        r.0@ == first_token(s@),
        r.1@ == rest_after_token(s@),
{
    let n = s.len();
    let mut i: usize = 0;
    while i < n && !ws_at(s, i)
        invariant
            0 <= i <= n,
            n == s@.len(),
            forall|j: int| 0 <= j < i ==> !is_ws(#[trigger] s@[j]),
        decreases n - i,
    {
        i += 1;
    }
    proof {
        if i < n {
            assert(is_ws(s@[i as int]));
            assert(token_end(s@) == i as int) by {
                let k = token_end(s@);
                assert(exists|q: int| 0 <= q < s@.len() && is_ws(s@[q]));
                if k < i {
                    assert(!is_ws(s@[k]));
                }
            }
        } else {
            assert(token_end(s@) == n as int) by {
                if exists|q: int| 0 <= q < s@.len() && is_ws(s@[q]) {
                    let q = choose|q: int| 0 <= q < s@.len() && is_ws(s@[q]);
                    assert(!is_ws(s@[q]));
                }
            }
        }
    }
    let token = vstd::slice::slice_to_vec(vstd::slice::slice_subrange(s, 0, i));
    let rest_raw = vstd::slice::slice_subrange(s, i, n);
    let rest = trim_bytes(rest_raw);
    proof {
        assert(token@ =~= first_token(s@));
        assert(rest_raw@ =~= s@.skip(token_end(s@)));
    }
    (token, rest)
}

/// True when `s` is one or more decimal digit bytes.
pub open spec fn all_digits(s: Seq<u8>) -> bool {
    s.len() > 0 && forall|i: int| 0 <= i < s.len() ==> 48 <= #[trigger] s[i] <= 57
}

/// The number the decimal digit bytes of `s` spell.
pub open spec fn digits_val(s: Seq<u8>) -> int
    decreases s.len(),
{
    if s.len() == 0 {
        0
    } else {
        digits_val(s.drop_last()) * 10 + (s.last() - 48)
    }
}

proof fn lemma_digits_val_monotone(s: Seq<u8>, i: int)
    requires
        0 <= i <= s.len(),
        forall|j: int| 0 <= j < s.len() ==> 48 <= #[trigger] s[j] <= 57,
    ensures
        digits_val(s.take(i)) <= digits_val(s),
    decreases s.len() - i,
{
    if i < s.len() {
        lemma_digits_val_monotone(s, i + 1);
        assert(s.take(i + 1).drop_last() =~= s.take(i));
        assert(digits_val(s.take(i + 1)) == digits_val(s.take(i)) * 10 + (s.take(i + 1).last()
            - 48));
        assert(digits_val(s.take(i)) >= 0) by {
            lemma_digits_val_nonneg(s.take(i));
        }
    } else {
        assert(s.take(i) =~= s);
    }
}

proof fn lemma_digits_val_nonneg(s: Seq<u8>)
    requires
        forall|j: int| 0 <= j < s.len() ==> 48 <= #[trigger] s[j] <= 57,
    ensures
        digits_val(s) >= 0,
    decreases s.len(),
{
    if s.len() > 0 {
        assert(s.drop_last() =~= s.take(s.len() - 1));
        lemma_digits_val_nonneg(s.drop_last());
    }
}

/// Reads a decimal number of at most `bound`: `Some` exactly when `s`
/// is all digits and its value fits the bound.
pub fn parse_uint(s: &[u8], bound: u64) -> (r: Option<u64>)
    requires
        bound <= u32::MAX as u64,
    ensures
        match r {
            Some(v) => all_digits(s@) && digits_val(s@) == v && v <= bound,
            None => !(all_digits(s@) && digits_val(s@) <= bound),
        },
{
    let n = s.len();
    if n == 0 {
        return None;
    }
    let mut acc: u64 = 0;
    let mut i: usize = 0;
    proof {
        assert(s@.take(0) =~= Seq::<u8>::empty());
    }
    while i < n
        invariant
            0 <= i <= n,
            n == s@.len(),
            bound <= u32::MAX as u64,
            acc == digits_val(s@.take(i as int)),
            acc <= bound,
            forall|j: int| 0 <= j < i ==> 48 <= #[trigger] s@[j] <= 57,
        decreases n - i,
    {
        let b = *vstd::slice::slice_index_get(s, i);
        if b < 48 || b > 57 {
            return None;
        }
        let next: u64 = acc * 10 + ((b - 48) as u64);
        proof {
            assert(s@.take(i as int + 1).drop_last() =~= s@.take(i as int));
            assert(s@.take(i as int + 1).last() == s@[i as int]);
        }
        if next > bound {
            proof {
                if all_digits(s@) {
                    lemma_digits_val_monotone(s@, i as int + 1);
                }
            }
            return None;
        }
        acc = next;
        i += 1;
    }
    proof {
        assert(s@.take(n as int) =~= s@);
    }
    Some(acc)
}

/// True when `s` is one to four lowercase-or-digit hex bytes.
pub open spec fn all_hex_group(s: Seq<u8>) -> bool {
    1 <= s.len() <= 4 && forall|i: int|
        0 <= i < s.len() ==> (48 <= #[trigger] s[i] <= 57 || 97 <= s[i] <= 102)
}

/// The value of one hex digit byte.
pub open spec fn hexv(b: u8) -> int {
    if 48 <= b <= 57 {
        b - 48
    } else {
        b - 87
    }
}

/// The number the hex digit bytes of `s` spell.
pub open spec fn hex_val(s: Seq<u8>) -> int
    decreases s.len(),
{
    if s.len() == 0 {
        0
    } else {
        hex_val(s.drop_last()) * 16 + hexv(s.last())
    }
}

/// Reads a sixteen-bit hex group: `Some` exactly when `s` is one to
/// four hex digit bytes.
pub fn parse_hex_group(s: &[u8]) -> (r: Option<u16>)
    ensures
        match r {
            Some(v) => all_hex_group(s@) && hex_val(s@) == v,
            None => !all_hex_group(s@),
        },
{
    let n = s.len();
    if n == 0 || n > 4 {
        return None;
    }
    let mut acc: u32 = 0;
    let mut i: usize = 0;
    proof {
        assert(s@.take(0) =~= Seq::<u8>::empty());
    }
    while i < n
        invariant
            0 <= i <= n,
            1 <= n <= 4,
            n == s@.len(),
            acc == hex_val(s@.take(i as int)),
            i == 0 ==> acc == 0,
            i == 1 ==> acc < 0x10,
            i == 2 ==> acc < 0x100,
            i == 3 ==> acc < 0x1000,
            i == 4 ==> acc < 0x10000,
            forall|j: int| 0 <= j < i ==> (48 <= #[trigger] s@[j] <= 57 || 97 <= s@[j] <= 102),
        decreases n - i,
    {
        let b = *vstd::slice::slice_index_get(s, i);
        let v: u32 = if 48 <= b && b <= 57 {
            (b - 48) as u32
        } else if 97 <= b && b <= 102 {
            (b - 87) as u32
        } else {
            return None;
        };
        proof {
            assert(s@.take(i as int + 1).drop_last() =~= s@.take(i as int));
            assert(s@.take(i as int + 1).last() == s@[i as int]);
        }
        acc = acc * 16 + v;
        i += 1;
    }
    proof {
        assert(s@.take(n as int) =~= s@);
    }
    Some(acc as u16)
}


/// The least index where `b` occurs in `s`, or the length of `s`.
pub open spec fn find_byte(s: Seq<u8>, b: u8) -> int {
    if exists|i: int| 0 <= i < s.len() && s[i] == b {
        choose|i: int|
            0 <= i < s.len() && s[i] == b && forall|j: int| 0 <= j < i ==> #[trigger] s[j] != b
    } else {
        s.len() as int
    }
}

/// An index that holds `b` with nothing before it is where `find_byte`
/// points.
pub proof fn lemma_find_byte_at(s: Seq<u8>, b: u8, i: int)
    requires
        0 <= i < s.len(),
        s[i] == b,
        forall|j: int| 0 <= j < i ==> #[trigger] s[j] != b,
    ensures
        find_byte(s, b) == i,
{
    assert(exists|q: int|
        0 <= q < s.len() && s[q] == b && forall|j: int| 0 <= j < q ==> #[trigger] s[j] != b);
    let k = find_byte(s, b);
    if k < i {
        assert(s[k] != b);
    }
    if i < k {
        assert(s[i] != b);
    }
}

/// When `b` does not occur in `s`, `find_byte` points past the end.
pub proof fn lemma_find_byte_absent(s: Seq<u8>, b: u8)
    requires
        forall|j: int| 0 <= j < s.len() ==> #[trigger] s[j] != b,
    ensures
        find_byte(s, b) == s.len(),
{
    if exists|i: int| 0 <= i < s.len() && s[i] == b {
        let i = choose|i: int| 0 <= i < s.len() && s[i] == b;
        assert(s[i] != b);
    }
}

/// Finds the least index where `b` occurs in `s`, or the length of `s`.
pub fn find_byte_exec(s: &[u8], b: u8) -> (r: usize)
    ensures
        r == find_byte(s@, b),
        r <= s@.len(),
{
    let n = s.len();
    let mut i: usize = 0;
    while i < n
        invariant
            0 <= i <= n,
            n == s@.len(),
            forall|j: int| 0 <= j < i ==> #[trigger] s@[j] != b,
        decreases n - i,
    {
        if *vstd::slice::slice_index_get(s, i) == b {
            proof {
                lemma_find_byte_at(s@, b, i as int);
            }
            return i;
        }
        i += 1;
    }
    proof {
        lemma_find_byte_absent(s@, b);
    }
    n
}


/// The UTF-8 bytes of a literal keyword of the configuration grammar.
pub open spec fn bytes_of(s: &str) -> Seq<u8> {
    s.spec_bytes()
}

/// Whether the bytes of `v` are exactly the keyword `kw`.
pub fn is_keyword(v: &[u8], kw: &str) -> (r: bool)
    ensures
        r == (v@ == bytes_of(kw)),
{
    slice_eq_bytes(v, kw.as_bytes())
}


/// Relies on String::from_utf8: succeeds exactly on valid UTF-8, and
/// the returned string is the one those bytes encode.
#[verifier::external_body]
pub(crate) fn bytes_to_string(v: Vec<u8>) -> (r: Option<String>)
    ensures
        r is Some <==> vstd::utf8::valid_utf8(v@),
        r matches Some(s) ==> vstd::utf8::encode_utf8(s@) == v@,
{
    String::from_utf8(v).ok()
}


/// The UTF-8 byte length of a character sequence, as `str::len`
/// reports it.
pub open spec fn byte_len(s: Seq<char>) -> usize {
    vstd::utf8::encode_utf8(s).len() as usize
}


/// Where `find_byte` points: within bounds, at an occurrence of `b`
/// when there is one, with none before it.
pub proof fn lemma_find_byte_found(s: Seq<u8>, b: u8)
    ensures
        0 <= find_byte(s, b) <= s.len(),
        find_byte(s, b) < s.len() ==> s[find_byte(s, b)] == b,
        forall|j: int| 0 <= j < find_byte(s, b) ==> #[trigger] s[j] != b,
{
    if exists|i: int| 0 <= i < s.len() && s[i] == b {
        let w = choose|i: int|
            0 <= i < s.len() && s[i] == b && forall|j: int| 0 <= j < i ==> #[trigger] s[j] != b;
        if !(0 <= w < s.len() && s[w] == b && forall|j: int| 0 <= j < w ==> #[trigger] s[j] != b) {
            let i0 = choose|i: int| 0 <= i < s.len() && s[i] == b;
            lemma_exists_least(s, b, i0);
        }
    }
}

proof fn lemma_exists_least(s: Seq<u8>, b: u8, i: int)
    requires
        0 <= i < s.len(),
        s[i] == b,
    ensures
        exists|k: int|
            0 <= k < s.len() && s[k] == b && forall|j: int| 0 <= j < k ==> #[trigger] s[j] != b,
    decreases i,
{
    if forall|j: int| 0 <= j < i ==> #[trigger] s[j] != b {
        assert(0 <= i < s.len() && s[i] == b && forall|j: int| 0 <= j < i ==> #[trigger] s[j] != b);
    } else {
        let j = choose|j: int| 0 <= j < i && s[j] == b;
        lemma_exists_least(s, b, j);
    }
}


/// Splitting a line built as `keyword SP argument`: such a line is
/// already trimmed, its first token is the keyword, and the rest is the
/// argument, when the keyword is free of whitespace and the argument
/// starts and ends with none.
pub proof fn lemma_split_at_ws(kw: Seq<u8>, arg: Seq<u8>)
    requires
        kw.len() > 0,
        forall|j: int| 0 <= j < kw.len() ==> !is_ws(#[trigger] kw[j]),
        arg.len() > 0,
        !is_ws(arg[0]),
        !is_ws(arg.last()),
    ensures
        ({
            let line = kw + seq![32u8] + arg;
            &&& trim(line) == line
            &&& first_token(line) == kw
            &&& rest_after_token(line) == arg
        }),
{
    let line = kw + seq![32u8] + arg;
    assert(line[0] == kw[0]);
    assert(line.last() == arg.last());
    lemma_ltrim_fixed(line);
    lemma_rtrim_fixed(line);
    let k = kw.len() as int;
    assert(is_ws(line[k]));
    assert(token_end(line) == k) by {
        assert(exists|i: int| 0 <= i < line.len() && is_ws(line[i])) by {
            assert(is_ws(line[k]));
        }
        let t = token_end(line);
        assert(0 <= t < line.len() && is_ws(line[t]) && forall|j: int|
            0 <= j < t ==> !is_ws(#[trigger] line[j]));
        if t < k {
            assert(line[t] == kw[t]);
        }
        if t > k {
            assert(!is_ws(line[k]));
        }
    }
    assert(first_token(line) =~= kw);
    let rest = line.skip(k);
    assert(rest =~= seq![32u8] + arg);
    assert(rest.drop_first() =~= arg);
    assert(ltrim(rest) == ltrim(arg));
    lemma_ltrim_fixed(arg);
    lemma_rtrim_fixed(arg);
}

} // verus!
