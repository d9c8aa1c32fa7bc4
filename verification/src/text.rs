//! Rendering integers as decimal text, shared by the AST printer, the
//! error messages and the code generator.

use vstd::prelude::*;
use vstd::string::StrSliceExecFns;

verus! {

/// The decimal digit character for a value between 0 and 9.
pub open spec fn spec_digit_char(d: int) -> char {
    if d == 0 {
        '0'
    } else if d == 1 {
        '1'
    } else if d == 2 {
        '2'
    } else if d == 3 {
        '3'
    } else if d == 4 {
        '4'
    } else if d == 5 {
        '5'
    } else if d == 6 {
        '6'
    } else if d == 7 {
        '7'
    } else if d == 8 {
        '8'
    } else {
        '9'
    }
}

/// The decimal text of a natural number, most significant digit first.
pub open spec fn spec_nat_text(n: nat) -> Seq<char>
    decreases n,
{
    if n < 10 {
        seq![spec_digit_char(n as int)]
    } else {
        spec_nat_text(n / 10).push(spec_digit_char((n % 10) as int))
    }
}

/// The decimal text of a signed value: a minus sign followed by the
/// magnitude when negative.
pub open spec fn spec_i64_text(v: i64) -> Seq<char> {
    if v >= 0 {
        spec_nat_text(v as nat)
    } else {
        seq!['-'] + spec_nat_text((-(v as int)) as nat)
    }
}

/// The decimal digit character for a value between 0 and 9.
pub fn digit_char(d: u64) -> (c: char)
    requires
        d < 10,
    ensures
        c == spec_digit_char(d as int),
{
    if d == 0 {
        '0'
    } else if d == 1 {
        '1'
    } else if d == 2 {
        '2'
    } else if d == 3 {
        '3'
    } else if d == 4 {
        '4'
    } else if d == 5 {
        '5'
    } else if d == 6 {
        '6'
    } else if d == 7 {
        '7'
    } else if d == 8 {
        '8'
    } else {
        '9'
    }
}

/// Appends the decimal text of `n` to `out`.
pub fn push_u64_text(out: &mut String, n: u64)
    ensures
        final(out)@ == old(out)@ + spec_nat_text(n as nat),
{
    let mut chars: Vec<char> = Vec::new();
    let mut cur: u64 = n;
    loop
        invariant_except_break
            spec_nat_text(n as nat) == spec_nat_text(cur as nat) + chars@,
        ensures
            spec_nat_text(n as nat) == chars@,
        decreases cur,
    {
        let ghost prev = chars@;
        let d = cur % 10;
        let next = cur / 10;
        chars.insert(0, digit_char(d));
        proof {
            assert(chars@ =~= seq![spec_digit_char(d as int)] + prev);
        }
        if next == 0 {
            proof {
                assert(spec_nat_text(cur as nat) == seq![spec_digit_char(d as int)]);
                assert(spec_nat_text(cur as nat) + prev =~= chars@);
            }
            break;
        }
        proof {
            assert(spec_nat_text(cur as nat) == spec_nat_text(next as nat).push(
                spec_digit_char(d as int),
            ));
            assert(spec_nat_text(next as nat) + chars@ =~= spec_nat_text(cur as nat) + prev);
        }
        cur = next;
    }
    let mut i: usize = 0;
    let ghost base = out@;
    while i < chars.len()
        invariant
            i <= chars@.len(),
            out@ == base + chars@.subrange(0, i as int),
        decreases chars@.len() - i,
    {
        out.push(chars[i]);
        proof {
            assert(base + chars@.subrange(0, i as int) + seq![chars@[i as int]] =~= base
                + chars@.subrange(0, i + 1));
        }
        i += 1;
    }
    proof {
        assert(chars@.subrange(0, chars@.len() as int) =~= chars@);
    }
}

/// Appends the decimal text of `v` to `out`, with a minus sign when negative.
pub fn push_i64_text(out: &mut String, v: i64)
    ensures
        final(out)@ == old(out)@ + spec_i64_text(v),
{
    if v >= 0 {
        push_u64_text(out, v as u64);
    } else {
        out.push('-');
        let m: u64 = ((-(v + 1)) as u64) + 1;
        proof {
            assert(m as int == -(v as int));
        }
        push_u64_text(out, m);
        proof {
            assert(old(out)@ + seq!['-'] + spec_nat_text(m as nat) =~= old(out)@ + spec_i64_text(
                v,
            ));
        }
    }
}

/// Appends the decimal text of `n` to `out`.
pub fn push_usize_text(out: &mut String, n: usize)
    ensures
        final(out)@ == old(out)@ + spec_nat_text(n as nat),
{
    push_u64_text(out, n as u64);
}

pub assume_specification[ std::string::String::push ](s: &mut String, c: char)
    ensures
        final(s)@ == old(s)@.push(c),
;

/// Whether two string slices hold the same characters.
pub fn str_eq(a: &str, b: &str) -> (r: bool)
    ensures
        r == (a@ == b@),
{
    let n = a.unicode_len();
    if n != b.unicode_len() {
        return false;
    }
    let mut i: usize = 0;
    while i < n
        invariant
            i <= n,
            n == a@.len(),
            n == b@.len(),
            forall|k: int| 0 <= k < i ==> a@[k] == b@[k],
        decreases n - i,
    {
        if a.get_char(i) != b.get_char(i) {
            return false;
        }
        i += 1;
    }
    proof {
        assert(a@ =~= b@);
    }
    true
}

/// Appends the characters `v[from..to]` to `out`.
pub fn push_chars(out: &mut String, v: &Vec<char>, from: usize, to: usize)
    requires
        from <= to <= v@.len(),
    ensures
        final(out)@ == old(out)@ + v@.subrange(from as int, to as int),
{
    let mut i = from;
    let ghost base = out@;
    while i < to
        invariant
            from <= i <= to <= v@.len(),
            out@ == base + v@.subrange(from as int, i as int),
        decreases to - i,
    {
        out.push(v[i]);
        proof {
            assert(base + v@.subrange(from as int, i as int) + seq![v@[i as int]] =~= base
                + v@.subrange(from as int, i + 1));
        }
        i += 1;
    }
}

} // verus!
