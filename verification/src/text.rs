//! Byte-level text search and decimal notation.
use vstd::prelude::*;
use vstd::string::StringExecFns;

verus! {

/// `needle` occurs in `hay` as a run of consecutive bytes.
pub open spec fn occurs_in(hay: Seq<u8>, needle: Seq<u8>) -> bool {
    exists|i: int| 0 <= i && i + needle.len() <= hay.len() && #[trigger] hay.subrange(i, i + needle.len()) == needle
}

/// Whether `needle` occurs in `hay`.
pub fn bytes_occur(hay: &[u8], needle: &[u8]) -> (r: bool)
    ensures
        r == occurs_in(hay@, needle@),
{
    if needle.len() > hay.len() {
        return false;
    }
    let last = hay.len() - needle.len();
    let mut i: usize = 0;
    while i <= last
        invariant
            last == hay@.len() - needle@.len(),
            needle@.len() <= hay@.len(),
            hay@.len() <= usize::MAX,
            0 <= i <= last,
            forall|k: int| 0 <= k < i ==> #[trigger] hay@.subrange(k, k + needle@.len()) != needle@,
        decreases last - i,
    {
        let mut j: usize = 0;
        let mut same = true;
        while j < needle.len() && same
            invariant
                i <= last,
                last == hay@.len() - needle@.len(),
                needle@.len() <= hay@.len(),
                hay@.len() <= usize::MAX,
                0 <= j <= needle@.len(),
                same ==> forall|m: int| 0 <= m < j ==> hay@[i + m] == needle@[m],
                !same ==> hay@.subrange(i as int, i + needle@.len()) != needle@,
            decreases needle@.len() - j, (if same { 1int } else { 0int }),
        {
            if hay[i + j] != needle[j] {
                same = false;
                assert(hay@.subrange(i as int, i + needle@.len())[j as int] != needle@[j as int]);
            } else {
                j += 1;
            }
        }
        if same {
            assert(hay@.subrange(i as int, i + needle@.len()) =~= needle@);
            return true;
        }
        if i == last {
            return false;
        }
        i += 1;
    }
    false
}


/// The decimal digit `d` (below 10).
pub open spec fn decimal_digit(d: nat) -> char {
    ((d + 48) as u8) as char
}

/// The decimal notation of `n`, without leading zeros.
pub open spec fn decimal(n: nat) -> Seq<char>
    decreases n,
{
    if n < 10 {
        seq![decimal_digit(n)]
    } else {
        decimal(n / 10).push(decimal_digit(n % 10))
    }
}

fn push_digit(s: &mut String, d: u8)
    requires
        d < 10,
    ensures
        final(s)@ == old(s)@.push(decimal_digit(d as nat)),
{
    let t = match d {
        0 => "0",
        1 => "1",
        2 => "2",
        3 => "3",
        4 => "4",
        5 => "5",
        6 => "6",
        7 => "7",
        8 => "8",
        _ => "9",
    };
    proof {
        reveal_strlit("0");
        reveal_strlit("1");
        reveal_strlit("2");
        reveal_strlit("3");
        reveal_strlit("4");
        reveal_strlit("5");
        reveal_strlit("6");
        reveal_strlit("7");
        reveal_strlit("8");
        reveal_strlit("9");
    }
    s.append(t);
    assert(final(s)@ =~= old(s)@.push(decimal_digit(d as nat)));
}

/// Appends the decimal notation of `n` to `s`.
pub fn push_decimal(s: &mut String, n: u64)
    ensures
        final(s)@ == old(s)@ + decimal(n as nat),
    decreases n,
{
    if n >= 10 {
        push_decimal(s, n / 10);
    }
    push_digit(s, (n % 10) as u8);
    assert(final(s)@ =~= old(s)@ + decimal(n as nat));
}

} // verus!
