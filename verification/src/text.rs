use vstd::prelude::*;

verus! {

/// The character of one decimal digit.
pub open spec fn digit_char(d: int) -> char {
    if d == 0 {
        '0'
    } else if d == 1 {
        '1'
    } else if d == 2 {
        '2'
    } else if d == 3 {
        '3'
    } else if d == 4 {
        '4'
    } else if d == 5 {
        '5'
    } else if d == 6 {
        '6'
    } else if d == 7 {
        '7'
    } else if d == 8 {
        '8'
    } else {
        '9'
    }
}

/// The decimal digits of a non-negative number, most significant first.
pub open spec fn dec_digits(n: int) -> Seq<char>
    recommends
        n >= 0,
    decreases n,
{
    if n < 10 {
        seq![digit_char(n)]
    } else {
        dec_digits(n / 10) + seq![digit_char(n % 10)]
    }
}

/// The decimal text of an integer: a minus sign for negative values, then
/// the digits of its magnitude.
pub open spec fn int_text(v: int) -> Seq<char> {
    if v < 0 {
        seq!['-'] + dec_digits(-v)
    } else {
        dec_digits(v)
    }
}

/// One decimal digit as a character.
fn digit_to_char(d: u64) -> (c: char)
    requires
        d < 10,
    ensures
        c == digit_char(d as int),
{
    match d {
        0 => '0',
        1 => '1',
        2 => '2',
        3 => '3',
        4 => '4',
        5 => '5',
        6 => '6',
        7 => '7',
        8 => '8',
        _ => '9',
    }
}

/// Appends the decimal text of `v` to `out`.
#[verifier::loop_isolation(false)]
pub fn push_i32(out: &mut Vec<char>, v: i32)
    ensures
        final(out)@ == old(out)@ + int_text(v as int),
{
    let ghost base: Seq<char> = out@;
    let mag: u64 = if v < 0 {
        out.push('-');
        (-(v as i64)) as u64
    } else {
        v as u64
    };
    let ghost base2: Seq<char> = out@;
    let mut tmp: Vec<char> = Vec::new();
    let mut m: u64 = mag;
    while m >= 10
        invariant
            dec_digits(mag as int) == dec_digits(m as int) + tmp@.reverse(),
        decreases m,
    {
        let ghost t0: Seq<char> = tmp@;
        let d = m % 10;
        tmp.push(digit_to_char(d));
        m = m / 10;
        proof {
            assert(tmp@.reverse() =~= seq![digit_char(d as int)] + t0.reverse());
        }
    }
    let ghost t0: Seq<char> = tmp@;
    tmp.push(digit_to_char(m));
    proof {
        assert(tmp@.reverse() =~= seq![digit_char(m as int)] + t0.reverse());
        assert(dec_digits(mag as int) =~= tmp@.reverse());
    }
    let mut k = tmp.len();
    proof {
        assert(tmp@.subrange(k as int, tmp@.len() as int).reverse() =~= Seq::<char>::empty());
        assert(out@ =~= base2 + tmp@.subrange(k as int, tmp@.len() as int).reverse());
    }
    while k > 0
        invariant
            k <= tmp@.len(),
            out@ == base2 + tmp@.subrange(k as int, tmp@.len() as int).reverse(),
        decreases k,
    {
        k = k - 1;
        out.push(tmp[k]);
        proof {
            assert(tmp@.subrange(k as int, tmp@.len() as int).reverse() =~= tmp@.subrange(
                k + 1,
                tmp@.len() as int,
            ).reverse().push(tmp@[k as int]));
            assert(out@ =~= base2 + tmp@.subrange(k as int, tmp@.len() as int).reverse());
        }
    }
    proof {
        assert(tmp@.subrange(0, tmp@.len() as int) =~= tmp@);
        assert(out@ =~= base + int_text(v as int));
    }
}

/// Appends every character of `s` to `out`.
#[verifier::loop_isolation(false)]
pub fn push_str_chars(out: &mut Vec<char>, s: &str)
    ensures
        final(out)@ == old(out)@ + s@,
{
    let ghost base: Seq<char> = out@;
    let n = s.unicode_len();
    let mut i: usize = 0;
    proof {
        assert(out@ =~= base + s@.take(0));
    }
    while i < n
        invariant
            i <= n,
            n == s@.len(),
            out@ == base + s@.take(i as int),
        decreases n - i,
    {
        let c = s.get_char(i);
        out.push(c);
        i = i + 1;
        proof {
            assert(out@ =~= base + s@.take(i as int));
        }
    }
    proof {
        assert(s@.take(n as int) =~= s@);
    }
}

/// The tape with its trailing zero cells dropped: how much of it a report
/// should show.
pub open spec fn trimmed_len(s: Seq<i32>) -> int
    decreases s.len(),
{
    if s.len() > 0 && s.last() == 0 {
        trimmed_len(s.drop_last())
    } else {
        s.len() as int
    }
}

/// Each cell as `[value]`, in order.
pub open spec fn cells_text(s: Seq<i32>) -> Seq<char>
    decreases s.len(),
{
    if s.len() == 0 {
        Seq::empty()
    } else {
        cells_text(s.drop_last()) + "["@ + int_text(s.last() as int) + "]"@
    }
}

/// The report a tape prettifies to: every cell up to the last non-zero one,
/// each as `[value]`, run together.
pub open spec fn pretty_text(s: Seq<i32>) -> Seq<char> {
    cells_text(s.take(trimmed_len(s)))
}

/// Renders a tape for reading: trailing zero cells are dropped, and each
/// remaining cell appears as `[value]`.
#[verifier::loop_isolation(false)]
pub fn prettify_memory(mem: &[i32]) -> (r: String)
    ensures
        r@ == pretty_text(mem@),
{
    let mut k: usize = mem.len();
    proof {
        assert(mem@.take(k as int) =~= mem@);
    }
    while k > 0 && mem[k - 1] == 0
        invariant
            k <= mem@.len(),
            trimmed_len(mem@) == trimmed_len(mem@.take(k as int)),
        decreases k,
    {
        k = k - 1;
        proof {
            assert(mem@.take(k + 1).drop_last() =~= mem@.take(k as int));
        }
    }
    proof {
        assert(trimmed_len(mem@.take(k as int)) == k as int);
    }
    let mut out: Vec<char> = Vec::new();
    let mut i: usize = 0;
    proof {
        assert(mem@.take(0) =~= Seq::<i32>::empty());
        assert(out@ =~= cells_text(mem@.take(0)));
    }
    while i < k
        invariant
            i <= k <= mem@.len(),
            out@ == cells_text(mem@.take(i as int)),
        decreases k - i,
    {
        crate::text::push_str_chars(&mut out, "[");
        push_i32(&mut out, mem[i]);
        crate::text::push_str_chars(&mut out, "]");
        proof {
            assert(mem@.take(i + 1).drop_last() =~= mem@.take(i as int));
            assert(mem@.take(i + 1).last() == mem@[i as int]);
        }
        i = i + 1;
    }
    chars_to_string(&out)
}

/// Relies on `String::from_iter` over `char`: collecting characters yields
/// the string of exactly those characters, in order.
#[verifier::external_body]
pub fn chars_to_string(v: &Vec<char>) -> (r: String)
    ensures
        r@ == v@,
{
    v.iter().collect()
}

} // verus!
