//! Text helpers for the mail protocol: trimming, upper-casing, keyword tests,
//! dropping a keyword from the front of a line and writing numbers in decimal.
use vstd::prelude::*;
use vstd::std_specs::iter::IteratorSpec;
use vstd::utf8::is_ascii_chars;

verus! {

/// True of the characters with the Unicode White_Space property.
pub open spec fn is_white_space(c: char) -> bool {
    let n = c as u32;
    ||| 0x9 <= n <= 0xd
    ||| n == 0x20
    ||| n == 0x85
    ||| n == 0xa0
    ||| n == 0x1680
    ||| 0x2000 <= n <= 0x200a
    ||| n == 0x2028
    ||| n == 0x2029
    ||| n == 0x202f
    ||| n == 0x205f
    ||| n == 0x3000
}

/// `s` without its leading white space.
pub open spec fn trim_start_of(s: Seq<char>) -> Seq<char>
    decreases s.len(),
{
    if s.len() > 0 && is_white_space(s[0]) {
        trim_start_of(s.drop_first())
    } else {
        s
    }
}

/// `s` without its trailing white space.
pub open spec fn trim_end_of(s: Seq<char>) -> Seq<char>
    decreases s.len(),
{
    if s.len() > 0 && is_white_space(s.last()) {
        trim_end_of(s.drop_last())
    } else {
        s
    }
}

/// `s` without leading and trailing white space.
pub open spec fn trim_of(s: Seq<char>) -> Seq<char> {
    trim_end_of(trim_start_of(s))
}

/// What `str::to_uppercase` returns for a text that is not all ASCII.
pub uninterp spec fn upper_of(s: Seq<char>) -> Seq<char>;

/// The upper case of an ASCII character: `a` to `z` become `A` to `Z`.
pub open spec fn ascii_upper(c: char) -> char {
    if 'a' <= c <= 'z' {
        seq![
            'A', 'B', 'C', 'D', 'E', 'F', 'G', 'H', 'I', 'J', 'K', 'L', 'M',
            'N', 'O', 'P', 'Q', 'R', 'S', 'T', 'U', 'V', 'W', 'X', 'Y', 'Z',
        ][(c as u32 - 'a' as u32) as int]
    } else {
        c
    }
}

/// The upper case of a text: letter by letter for ASCII.
pub open spec fn upper_text(s: Seq<char>) -> Seq<char> {
    if is_ascii_chars(s) {
        s.map_values(|c: char| ascii_upper(c))
    } else {
        upper_of(s)
    }
}

/// Relies on `str::trim`: leading and trailing White_Space characters removed.
#[verifier::external_body]
pub(crate) fn trim_str<'a>(s: &'a str) -> (r: &'a str)
    ensures
        r@ == trim_of(s@),
{
    s.trim()
}

/// Relies on `str::to_uppercase`: the result depends on the characters alone,
/// and on ASCII only `a` to `z` change, to `A` to `Z`.
#[verifier::external_body]
pub(crate) fn upper_str(s: &str) -> (r: String)
    ensures
        !is_ascii_chars(s@) ==> r@ == upper_of(s@),
        is_ascii_chars(s@) ==> r@ == s@.map_values(|c: char| ascii_upper(c)),
{
    s.to_uppercase()
}

/// The characters of `s`.
pub fn chars_of(s: &str) -> (v: Vec<char>)
    ensures
        v@ == s@,
{
    broadcast use vstd::string::axiom_spec_iter, vstd::string::next_postcondition;

    let mut it = s.chars();
    let mut out: Vec<char> = Vec::new();
    loop
        invariant
            it.obeys_prophetic_iter_laws(),
            out@.len() <= s@.len(),
            it.remaining() == s@.skip(out@.len() as int),
            out@ == s@.take(out@.len() as int),
        ensures
            out@ == s@,
        decreases s@.len() - out@.len(),
    {
        match it.next() {
            Some(c) => {
                assert(s@.take(out@.len() as int + 1) =~= out@.push(c));
                assert(s@.skip(out@.len() as int + 1) =~= s@.skip(out@.len() as int).drop_first());
                out.push(c);
            },
            None => {
                assert(s@.take(out@.len() as int) =~= s@);
                break;
            },
        }
    }
    out
}

/// True when `p` is a prefix of `s`.
pub fn has_prefix(s: &str, p: &str) -> (r: bool)
    ensures
        r == p@.is_prefix_of(s@),
{
    let sv = chars_of(s);
    let pv = chars_of(p);
    if pv.len() > sv.len() {
        return false;
    }
    let mut i: usize = 0;
    while i < pv.len()
        invariant
            i <= pv@.len() <= sv@.len(),
            pv@ == p@,
            sv@ == s@,
            forall|j: int| 0 <= j < i ==> pv@[j] == sv@[j],
        decreases pv@.len() - i,
    {
        if pv[i] != sv[i] {
            assert(sv@.subrange(0, pv@.len() as int)[i as int] != pv@[i as int]);
            return false;
        }
        i = i + 1;
    }
    assert(pv@ =~= sv@.subrange(0, pv@.len() as int));
    true
}

/// Relies on `String::push`: appends one character.
#[verifier::external_body]
fn push_char(s: &mut String, c: char)
    ensures
        final(s)@ == old(s)@.push(c),
{
    s.push(c)
}

/// The characters of `s` after the first `k`; empty when `s` is shorter.
pub open spec fn after(s: Seq<char>, k: nat) -> Seq<char> {
    if k <= s.len() {
        s.skip(k as int)
    } else {
        Seq::empty()
    }
}

/// Copies the characters of `s` that follow its first `k` characters.
pub fn drop_chars(s: &str, k: usize) -> (r: String)
    ensures
        r@ == after(s@, k as nat),
{
    broadcast use vstd::string::axiom_spec_iter, vstd::string::next_postcondition;

    let mut it = s.chars();
    let mut out = String::new();
    let mut i: usize = 0;
    let ghost mut seen: nat = 0;
    loop
        invariant
            it.obeys_prophetic_iter_laws(),
            seen <= s@.len(),
            it.remaining() == s@.skip(seen as int),
            i as nat == if seen <= k { seen } else { k as nat },
            out@ == if seen <= k { Seq::empty() } else { s@.subrange(k as int, seen as int) },
        ensures
            seen == s@.len(),
            i as nat == if seen <= k { seen } else { k as nat },
            out@ == if seen <= k { Seq::empty() } else { s@.subrange(k as int, seen as int) },
        decreases s@.len() - seen,
    {
        match it.next() {
            Some(c) => {
                assert(c == s@[seen as int]);
                if i < k {
                    i = i + 1;
                } else {
                    push_char(&mut out, c);
                    assert(s@.subrange(k as int, (seen + 1) as int) =~= s@.subrange(k as int, seen as int).push(c));
                }
                proof {
                    assert(s@.skip((seen + 1) as int) =~= s@.skip(seen as int).drop_first());
                    seen = seen + 1;
                }
            },
            None => {
                assert(seen == s@.len());
                break;
            },
        }
    }
    proof {
        if seen <= k {
            assert(k <= s@.len() ==> s@.skip(k as int) =~= Seq::<char>::empty());
        } else {
            assert(s@.skip(k as int) =~= s@.subrange(k as int, seen as int));
        }
    }
    out
}

/// The decimal digit for `d`, which is below ten.
pub open spec fn digit(d: nat) -> char {
    seq!['0', '1', '2', '3', '4', '5', '6', '7', '8', '9'][d as int]
}

/// `n` written in decimal, most significant digit first, with no leading zero.
pub open spec fn decimal(n: nat) -> Seq<char>
    decreases n,
{
    if n < 10 {
        seq![digit(n)]
    } else {
        decimal(n / 10).push(digit(n % 10))
    }
}

/// Appends `n` in decimal to `s`.
pub fn push_decimal(s: &mut String, n: usize)
    ensures
        final(s)@ == old(s)@ + decimal(n as nat),
    decreases n,
{
    if n >= 10 {
        push_decimal(s, n / 10);
    }
    let digits = vec!['0', '1', '2', '3', '4', '5', '6', '7', '8', '9'];
    assert(digits@ == seq!['0', '1', '2', '3', '4', '5', '6', '7', '8', '9']);
    push_char(s, digits[n % 10]);
    assert(s@ =~= old(s)@ + decimal(n as nat));
}

} // verus!
