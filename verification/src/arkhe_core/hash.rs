//! The abstract hasher: the semantic core knows no cryptographic algorithm;
//! concrete ones are supplied by the caller.
use vstd::prelude::*;
use vstd::string::StringExecFns;

verus! {

/// A hash function from bytes to 32-byte digests.
pub trait Hasher: Send + Sync {
    /// `d` is a digest that this hasher may give of `content`.
    spec fn hashes(&self, content: Seq<u8>, d: Seq<u8>) -> bool;

    fn hash(&self, content: &[u8]) -> (r: [u8; 32])
        ensures
            self.hashes(content@, r@),
    ;
}

/// The identity "hash": the first 32 bytes of the content, zero-padded.
pub open spec fn identity_digest(content: Seq<u8>) -> Seq<u8> {
    if content.len() >= 32 {
        content.take(32)
    } else {
        content + Seq::new((32 - content.len()) as nat, |i: int| 0u8)
    }
}

/// Hasher of identity, for tests and modelling.
pub struct IdentityHasher;

impl Hasher for IdentityHasher {
    open spec fn hashes(&self, content: Seq<u8>, d: Seq<u8>) -> bool {
        d == identity_digest(content)
    }

    fn hash(&self, content: &[u8]) -> (r: [u8; 32])
        ensures
            r@ == identity_digest(content@),
    {
        let mut out = [0u8; 32];
        let len = if content.len() < 32 {
            content.len()
        } else {
            32
        };
        let mut i: usize = 0;
        while i < len
            invariant
                len <= 32,
                len <= content@.len(),
                len == (if content@.len() < 32 { content@.len() } else { 32 }),
                0 <= i <= len,
                forall|k: int| 0 <= k < i ==> out@[k] == content@[k],
                forall|k: int| i <= k < 32 ==> out@[k] == 0,
            decreases len - i,
        {
            out[i] = content[i];
            i += 1;
        }
        assert(out@ =~= identity_digest(content@));
        out
    }
}

/// Hasher that delegates to a function supplied by the caller, one that
/// accepts every content.
pub struct FnHasher<F: Fn(&[u8]) -> [u8; 32]> {
    f: F,
}

impl<F: Fn(&[u8]) -> [u8; 32]> FnHasher<F> {
    /// The supplied function may be called on any content.
    #[verifier::type_invariant]
    closed spec fn total(self) -> bool {
        forall|c: &[u8]| #[trigger] call_requires(self.f, (c,))
    }

    /// The function this hasher delegates to.
    pub closed spec fn function(&self) -> F {
        self.f
    }

    /// A hasher that delegates to `f`.
    pub fn new(f: F) -> (r: Self)
        requires
            forall|c: &[u8]| #[trigger] call_requires(f, (c,)),
        ensures
            r.function() == f,
    {
        FnHasher { f }
    }
}

impl<F: Fn(&[u8]) -> [u8; 32] + Send + Sync> Hasher for FnHasher<F> {
    /// `d` is a possible output of the supplied function on some slice
    /// that holds `content`.
    open spec fn hashes(&self, content: Seq<u8>, d: Seq<u8>) -> bool {
        exists|x: &[u8], r: [u8; 32]|
            x@ == content && r@ == d && #[trigger] call_ensures(self.function(), (x,), r)
    }

    fn hash(&self, content: &[u8]) -> (r: [u8; 32])
        ensures
            call_ensures(self.function(), (content,), r),
    {
        proof {
            use_type_invariant(self);
        }
        let r = (self.f)(content);
        assert(call_ensures(self.function(), (content,), r));
        r
    }
}

/// The lowercase hexadecimal digit of `d` (below 16).
pub open spec fn hex_digit(d: u8) -> char {
    if d < 10 {
        ((d + 48) as u8) as char
    } else {
        ((d + 87) as u8) as char
    }
}

/// A byte in lowercase hexadecimal without leading zeros.
pub open spec fn hex_byte(b: u8) -> Seq<char> {
    if b < 16 {
        seq![hex_digit(b)]
    } else {
        seq![hex_digit(b / 16), hex_digit(b % 16)]
    }
}

/// The bytes in lowercase hexadecimal, separated by ", ".
pub open spec fn hex_list(d: Seq<u8>) -> Seq<char>
    decreases d.len(),
{
    if d.len() == 0 {
        Seq::empty()
    } else if d.len() == 1 {
        hex_byte(d[0])
    } else {
        hex_list(d.drop_last()) + seq![',', ' '] + hex_byte(d.last())
    }
}

/// The text of a digest as the core records it: its bytes in the
/// hexadecimal debug notation, `[` and `]` around a list separated by
/// ", ", each byte in lowercase without leading zeros.
pub open spec fn digest_text(d: Seq<u8>) -> Seq<char> {
    seq!['['] + hex_list(d) + seq![']']
}

fn push_hex_digit(s: &mut String, d: u8)
    requires
        d < 16,
    ensures
        final(s)@ == old(s)@.push(hex_digit(d)),
{
    let t = match d {
        0 => "0",
        1 => "1",
        2 => "2",
        3 => "3",
        4 => "4",
        5 => "5",
        6 => "6",
        7 => "7",
        8 => "8",
        9 => "9",
        10 => "a",
        11 => "b",
        12 => "c",
        13 => "d",
        14 => "e",
        _ => "f",
    };
    proof {
        reveal_strlit("0");
        reveal_strlit("1");
        reveal_strlit("2");
        reveal_strlit("3");
        reveal_strlit("4");
        reveal_strlit("5");
        reveal_strlit("6");
        reveal_strlit("7");
        reveal_strlit("8");
        reveal_strlit("9");
        reveal_strlit("a");
        reveal_strlit("b");
        reveal_strlit("c");
        reveal_strlit("d");
        reveal_strlit("e");
        reveal_strlit("f");
    }
    s.append(t);
    assert(final(s)@ =~= old(s)@.push(hex_digit(d)));
}

/// The text of a 32-byte digest; see `digest_text`.
pub fn digest_to_text(d: &[u8; 32]) -> (r: String)
    ensures
        r@ == digest_text(d@),
{
    let mut s = String::new();
    s.append("[");
    proof {
        reveal_strlit("[");
        reveal_strlit(", ");
        reveal_strlit("]");
    }
    let mut i: usize = 0;
    while i < 32
        invariant
            0 <= i <= 32,
            s@ == seq!['['] + hex_list(d@.take(i as int)),
        decreases 32 - i,
    {
        let ghost before = s@;
        proof {
            reveal_strlit(", ");
        }
        if i > 0 {
            s.append(", ");
        }
        let b = d[i];
        if b >= 16 {
            push_hex_digit(&mut s, b / 16);
            push_hex_digit(&mut s, b % 16);
        } else {
            push_hex_digit(&mut s, b);
        }
        proof {
            let t = d@.take(i as int + 1);
            assert(t.drop_last() =~= d@.take(i as int));
            assert(t.last() == b);
            if i == 0 {
                assert(hex_list(t) == hex_byte(b));
            }
            assert(s@ =~= seq!['['] + hex_list(t));
        }
        i += 1;
    }
    proof {
        reveal_strlit("]");
    }
    s.append("]");
    assert(d@.take(32) =~= d@);
    s
}

} // verus!
