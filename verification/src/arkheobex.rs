//! Arkhe objects: the transport unit of the system, a body with typed
//! headers.
use vstd::prelude::*;
use crate::clock::unix_now_seconds;

verus! {

/// Header types; `PqcAttestation` is 0xF8.
#[derive(Debug, Clone, Copy, PartialEq, Eq, Structural)]
pub enum HeaderType {
    PqcAttestation,
}

impl HeaderType {
    /// The byte that stands for the header type.
    pub open spec fn code(self) -> u8 {
        match self {
            HeaderType::PqcAttestation => 0xF8,
        }
    }

    pub fn as_u8(self) -> (r: u8)
        ensures
            r == self.code(),
    {
        match self {
            HeaderType::PqcAttestation => 0xF8,
        }
    }
}

/// The body of an object.
#[derive(Debug, Clone)]
pub struct ArkheBody {
    pub data: String,
    pub timestamp: i64,
}

/// An Arkhe object.
#[derive(Debug, Clone)]
pub struct ArkheObject {
    pub id: String,
    pub source_did: String,
    pub target_did: Option<String>,
    pub body: ArkheBody,
    pub headers: Vec<(HeaderType, Vec<u8>)>,
}

/// A lowercase hexadecimal digit.
pub open spec fn lower_hex_char(c: char) -> bool {
    ('0' <= c && c <= '9') || ('a' <= c && c <= 'f')
}

/// The hyphenated text of a random (version 4, RFC 4122 variant) UUID:
/// 36 characters, hyphens at positions 8, 13, 18 and 23, lowercase
/// hexadecimal digits elsewhere, the version digit `4` at position 14 and
/// one of `8`, `9`, `a`, `b` at position 19.
pub open spec fn uuid_v4_text(s: Seq<char>) -> bool {
    &&& s.len() == 36
    &&& forall|k: int|
        0 <= k < 36 ==> if k == 8 || k == 13 || k == 18 || k == 23 {
            s[k] == '-'
        } else {
            lower_hex_char(#[trigger] s[k])
        }
    &&& s[14] == '4'
    &&& (s[19] == '8' || s[19] == '9' || s[19] == 'a' || s[19] == 'b')
}

/// A fresh random UUID (`Uuid::new_v4`) in its hyphenated text form
/// (`Display`, lowercase): its shape is fixed, the other digits are left
/// to chance.
#[verifier::external_body]
fn new_uuid_text() -> (r: String)
    ensures
        uuid_v4_text(r@),
{
    uuid::Uuid::new_v4().to_string()
}

/// The first header of type `typ` in `headers`, if any.
pub open spec fn first_header(headers: Seq<(HeaderType, Vec<u8>)>, typ: HeaderType, i: int) -> Option<
    int,
>
    decreases headers.len() - i,
{
    if i < 0 || i >= headers.len() {
        None
    } else if headers[i].0 == typ {
        Some(i)
    } else {
        first_header(headers, typ, i + 1)
    }
}

impl ArkheObject {
    /// A new object holding `data`, from `source_did`, with a fresh random
    /// identifier, the current time and no header.
    pub fn new(data: String, source_did: &str) -> (r: Self)
        ensures
            uuid_v4_text(r.id@),
            r.source_did@ == source_did@,
            r.target_did is None,
            r.body.data == data,
            r.headers@.len() == 0,
    {
        ArkheObject {
            id: new_uuid_text(),
            source_did: source_did.to_owned(),
            target_did: None,
            body: ArkheBody { data, timestamp: unix_now_seconds() },
            headers: Vec::new(),
        }
    }

    /// Appends a header.
    pub fn add_header(&mut self, typ: HeaderType, value: Vec<u8>)
        ensures
            final(self).headers@ == old(self).headers@.push((typ, value)),
            final(self).id == old(self).id,
            final(self).source_did == old(self).source_did,
            final(self).target_did == old(self).target_did,
            final(self).body == old(self).body,
    {
        self.headers.push((typ, value));
    }

    /// The value of the first header of type `typ`, if there is one.
    pub fn get_header(&self, typ: HeaderType) -> (r: Option<&[u8]>)
        ensures
            match first_header(self.headers@, typ, 0) {
                Some(k) => r matches Some(v) && v@ == self.headers@[k].1@,
                None => r is None,
            },
    {
        let mut i: usize = 0;
        while i < self.headers.len()
            invariant
                0 <= i <= self.headers@.len(),
                first_header(self.headers@, typ, 0) == first_header(self.headers@, typ, i as int),
            decreases self.headers@.len() - i,
        {
            if self.headers[i].0 == typ {
                return Some(self.headers[i].1.as_slice());
            }
            i += 1;
        }
        None
    }
}

} // verus!
