//! Verified text utilities: trimming, concatenation, decimal and hex
//! rendering of plain values.

use vstd::prelude::*;
use vstd::string::StrSliceExecFns;
use vstd::string::StringExecFns;

verus! {

/// Relies on `alloc::string::String::push`: appends the given character to
/// the end of the string, as its documentation states.
pub assume_specification[ String::push ](s: &mut String, c: char)
    ensures
        final(s)@ == old(s)@.push(c),
;

/// The characters with the Unicode `White_Space` property, the set that
/// `str::trim` removes at both ends.
pub open spec fn is_ws_char(c: char) -> bool {
    let u = c as u32;
    (0x09 <= u && u <= 0x0D) || u == 0x20 || u == 0x85 || u == 0xA0 || u == 0x1680 || (0x2000
        <= u && u <= 0x200A) || u == 0x2028 || u == 0x2029 || u == 0x202F || u == 0x205F || u
        == 0x3000
}

/// Whether `c` is a Unicode whitespace character.
pub fn is_whitespace_char(c: char) -> (r: bool)
    ensures
        r == is_ws_char(c),
{
    let u = c as u32;
    (0x09 <= u && u <= 0x0D) || u == 0x20 || u == 0x85 || u == 0xA0 || u == 0x1680 || (0x2000
        <= u && u <= 0x200A) || u == 0x2028 || u == 0x2029 || u == 0x202F || u == 0x205F || u
        == 0x3000
}

/// `s` with leading whitespace removed.
pub open spec fn trim_front(s: Seq<char>) -> Seq<char>
    decreases s.len(),
{
    if s.len() == 0 {
        s
    } else if is_ws_char(s[0]) {
        trim_front(s.drop_first())
    } else {
        s
    }
}

/// `s` with trailing whitespace removed.
pub open spec fn trim_back(s: Seq<char>) -> Seq<char>
    decreases s.len(),
{
    if s.len() == 0 {
        s
    } else if is_ws_char(s[s.len() - 1]) {
        trim_back(s.drop_last())
    } else {
        s
    }
}

/// `s` with whitespace removed at both ends, as `str::trim` leaves it.
pub open spec fn trimmed(s: Seq<char>) -> Seq<char> {
    trim_back(trim_front(s))
}

proof fn lemma_trim_front_skip(s: Seq<char>, i: int)
    requires
        0 <= i <= s.len(),
        forall|k: int| 0 <= k < i ==> is_ws_char(s[k]),
        i < s.len() ==> !is_ws_char(s[i]),
    ensures
        trim_front(s) == s.skip(i),
    decreases i,
{
    if i == 0 {
        assert(s.skip(0) =~= s);
    } else {
        let t = s.drop_first();
        assert(t =~= s.skip(1));
        assert(forall|k: int| 0 <= k < i - 1 ==> is_ws_char(#[trigger] t[k]));
        lemma_trim_front_skip(t, i - 1);
        assert(t.skip(i - 1) =~= s.skip(i));
    }
}

proof fn lemma_trim_back_take(s: Seq<char>, j: int)
    requires
        0 <= j <= s.len(),
        forall|k: int| j <= k < s.len() ==> is_ws_char(s[k]),
        j > 0 ==> !is_ws_char(s[j - 1]),
    ensures
        trim_back(s) == s.take(j),
    decreases s.len() - j,
{
    if j == s.len() {
        assert(s.take(j) =~= s);
    } else {
        let t = s.drop_last();
        assert(t =~= s.take(s.len() - 1));
        assert(forall|k: int| j <= k < t.len() ==> is_ws_char(#[trigger] t[k]));
        lemma_trim_back_take(t, j);
        assert(t.take(j) =~= s.take(j));
    }
}

/// Returns `s` with whitespace removed at both ends, as an owned string.
pub fn trim_str(s: &str) -> (r: String)
    ensures
        r@ == trimmed(s@),
{
    let n = s.unicode_len();
    let mut i: usize = 0;
    while i < n && is_whitespace_char(s.get_char(i))
        invariant
            n == s@.len(),
            0 <= i <= n,
            forall|k: int| 0 <= k < i ==> is_ws_char(s@[k]),
        decreases n - i,
    {
        i = i + 1;
    }
    let mut j: usize = n;
    while j > i && is_whitespace_char(s.get_char(j - 1))
        invariant
            n == s@.len(),
            0 <= i <= j <= n,
            forall|k: int| 0 <= k < i ==> is_ws_char(s@[k]),
            i < n ==> !is_ws_char(s@[i as int]),
            forall|k: int| j <= k < n ==> is_ws_char(s@[k]),
        decreases j,
    {
        j = j - 1;
    }
    let t = s.substring_char(i, j);
    proof {
        lemma_trim_front_skip(s@, i as int);
        let f = s@.skip(i as int);
        assert(forall|k: int|
            j - i <= k < f.len() ==> is_ws_char(#[trigger] f[k])) by {
            assert(forall|k: int|
                j - i <= k < f.len() ==> f[k] == s@[k + i] && is_ws_char(s@[k + i]));
        }
        lemma_trim_back_take(f, j - i);
        assert(f.take(j - i) =~= s@.subrange(i as int, j as int));
    }
    t.to_owned()
}

/// The concatenation of a sequence of strings, in order.
pub open spec fn concat_views(ss: Seq<Seq<char>>) -> Seq<char>
    decreases ss.len(),
{
    if ss.len() == 0 {
        Seq::empty()
    } else {
        ss[0] + concat_views(ss.drop_first())
    }
}

/// Joins all parts into one string, in order, with nothing between them.
pub fn concat_all(parts: &Vec<String>) -> (r: String)
    ensures
        r@ == concat_views(parts.deep_view()),
{
    let ghost vs = parts.deep_view();
    let mut acc = String::new();
    let mut i: usize = 0;
    proof {
        assert(vs.skip(0) =~= vs);
    }
    while i < parts.len()
        invariant
            vs == parts.deep_view(),
            vs.len() == parts@.len(),
            forall|k: int| 0 <= k < vs.len() ==> vs[k] == #[trigger] parts@[k]@,
            0 <= i <= parts.len(),
            concat_views(vs) =~= acc@ + concat_views(vs.skip(i as int)),
        decreases parts.len() - i,
    {
        acc.append(parts[i].as_str());
        proof {
            let rest = vs.skip(i as int);
            assert(rest.drop_first() =~= vs.skip(i + 1));
            assert(rest[0] == parts@[i as int]@);
        }
        i = i + 1;
    }
    proof {
        assert(vs.skip(vs.len() as int) =~= Seq::<Seq<char>>::empty());
    }
    acc
}

/// The ten decimal digit characters, in order of value.
pub const DEC_DIGITS: [char; 10] = ['0', '1', '2', '3', '4', '5', '6', '7', '8', '9'];

/// The decimal rendering of `n`, most significant digit first, no sign and
/// no leading zero except for `n == 0` itself.
pub open spec fn dec_rep(n: nat) -> Seq<char>
    decreases n,
{
    if n < 10 {
        seq![DEC_DIGITS@[n as int]]
    } else {
        dec_rep(n / 10) + seq![DEC_DIGITS@[(n % 10) as int]]
    }
}

/// Appends the decimal rendering of `n` to `s`.
pub fn push_dec(s: &mut String, n: u64)
    ensures
        final(s)@ == old(s)@ + dec_rep(n as nat),
    decreases n,
{
    if n >= 10 {
        push_dec(s, n / 10);
    }
    s.push(DEC_DIGITS[(n % 10) as usize]);
    proof {
        if n < 10 {
            assert(old(s)@ + dec_rep(n as nat) =~= old(s)@.push(DEC_DIGITS@[n as int]));
        } else {
            assert(old(s)@ + dec_rep(n as nat) =~= (old(s)@ + dec_rep((n / 10) as nat)).push(
                DEC_DIGITS@[(n % 10) as int],
            ));
        }
    }
}

/// The decimal rendering of `n`.
pub fn fmt_u64(n: u64) -> (r: String)
    ensures
        r@ == dec_rep(n as nat),
{
    let mut s = String::new();
    push_dec(&mut s, n);
    proof {
        assert(Seq::<char>::empty() + dec_rep(n as nat) =~= dec_rep(n as nat));
    }
    s
}

/// The decimal rendering of a signed number: a leading minus sign when it is
/// negative, then the digits of its magnitude.
pub open spec fn dec_rep_i64(n: int) -> Seq<char> {
    if n >= 0 {
        dec_rep(n as nat)
    } else {
        seq!['-'] + dec_rep((-n) as nat)
    }
}

/// The decimal rendering of `n`, as `i64::to_string` produces it.
pub fn fmt_i64(n: i64) -> (r: String)
    ensures
        r@ == dec_rep_i64(n as int),
{
    if n >= 0 {
        fmt_u64(n as u64)
    } else {
        let mut s = String::new();
        s.push('-');
        let mag: u64 = ((-(n + 1)) as u64) + 1;
        assert(mag as int == -(n as int));
        push_dec(&mut s, mag);
        proof {
            assert(Seq::<char>::empty().push('-') =~= seq!['-']);
        }
        s
    }
}

/// The sixteen lower-case hex digit characters, in order of value.
pub const HEX_DIGITS: [char; 16] = [
    '0',
    '1',
    '2',
    '3',
    '4',
    '5',
    '6',
    '7',
    '8',
    '9',
    'a',
    'b',
    'c',
    'd',
    'e',
    'f',
];

/// The lower-case hex rendering of a byte string, two digits per byte.
pub open spec fn hex_rep(bs: Seq<u8>) -> Seq<char>
    decreases bs.len(),
{
    if bs.len() == 0 {
        Seq::empty()
    } else {
        seq![HEX_DIGITS@[bs[0] as int / 16], HEX_DIGITS@[bs[0] as int % 16]] + hex_rep(
            bs.drop_first(),
        )
    }
}

/// Renders `bs` as lower-case hex, two digits per byte.
pub fn to_hex(bs: &Vec<u8>) -> (r: String)
    ensures
        r@ == hex_rep(bs@),
{
    let mut acc = String::new();
    let mut i: usize = 0;
    proof {
        assert(bs@.skip(0) =~= bs@);
    }
    while i < bs.len()
        invariant
            0 <= i <= bs@.len(),
            hex_rep(bs@) =~= acc@ + hex_rep(bs@.skip(i as int)),
        decreases bs@.len() - i,
    {
        let b = bs[i];
        acc.push(HEX_DIGITS[(b / 16) as usize]);
        acc.push(HEX_DIGITS[(b % 16) as usize]);
        proof {
            assert(bs@.skip(i as int).drop_first() =~= bs@.skip(i + 1));
        }
        i = i + 1;
    }
    proof {
        assert(bs@.skip(bs@.len() as int) =~= Seq::<u8>::empty());
    }
    acc
}

} // verus!
