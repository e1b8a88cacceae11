//! Commit identifiers and their hex encoding.

use vstd::prelude::*;

verus! {

/// An opaque, fixed-width commit identifier: the 20 raw bytes of a
/// content-addressed object id.  Ids from different repositories are never
/// compared directly; correspondence between them exists only through the
/// maps that the indexer builds.
#[derive(Debug, PartialEq, Eq)]
pub struct CommitId {
    bytes: Vec<u8>,
}

impl View for CommitId {
    type V = Seq<u8>;

    closed spec fn view(&self) -> Seq<u8> {
        self.bytes@
    }
}

impl CommitId {
    /// A well-formed commit id holds exactly 20 bytes.
    pub open spec fn wf(&self) -> bool {
        self@.len() == 20
    }

    /// Builds a commit id from exactly 20 raw bytes.
    pub fn new(bytes: Vec<u8>) -> (r: CommitId)
        requires
            bytes@.len() == 20,
        ensures
            r@ == bytes@,
            r.wf(),
    {
        CommitId { bytes }
    }

    /// Builds a commit id from raw bytes, rejecting any length but 20.
    pub fn from_bytes(bytes: Vec<u8>) -> (r: Option<CommitId>)
        ensures
            r is Some <==> bytes@.len() == 20,
            r is Some ==> r.unwrap()@ == bytes@ && r.unwrap().wf(),
    {
        if bytes.len() == 20 {
            Some(CommitId { bytes })
        } else {
            None
        }
    }

    /// The raw bytes of this id.
    pub fn as_bytes(&self) -> (r: &Vec<u8>)
        ensures
            r@ == self@,
    {
        &self.bytes
    }

    /// Byte-for-byte equality of two commit ids.
    pub fn same_as(&self, other: &CommitId) -> (r: bool)
        ensures
            r == (self@ == other@),
    {
        if self.bytes.len() != other.bytes.len() {
            return false;
        }
        let mut i: usize = 0;
        while i < self.bytes.len()
            invariant
                i <= self.bytes@.len(),
                self.bytes@.len() == other.bytes@.len(),
                forall|j: int| 0 <= j < i ==> self.bytes@[j] == other.bytes@[j],
            decreases self.bytes@.len() - i,
        {
            if self.bytes[i] != other.bytes[i] {
                return false;
            }
            i += 1;
        }
        proof {
            assert(self@ =~= other@);
        }
        true
    }

    /// An identical copy of this commit id.
    pub fn duplicate(&self) -> (r: CommitId)
        ensures
            r@ == self@,
    {
        let mut out: Vec<u8> = Vec::new();
        let mut i: usize = 0;
        while i < self.bytes.len()
            invariant
                i <= self.bytes@.len(),
                out@ == self.bytes@.subrange(0, i as int),
            decreases self.bytes@.len() - i,
        {
            out.push(self.bytes[i]);
            proof {
                assert(out@ =~= self.bytes@.subrange(0, i + 1));
            }
            i += 1;
        }
        proof {
            assert(out@ =~= self@);
        }
        CommitId { bytes: out }
    }
}

/// The sixteen hexadecimal digit characters, either case.
pub open spec fn is_hex_digit(c: char) -> bool {
    (48 <= c as int && c as int <= 57)  // '0' through '9'
    || (97 <= c as int && c as int <= 102)  // 'a' through 'f'
    || (65 <= c as int && c as int <= 70)  // 'A' through 'F'
}

/// The numeric value of a hex digit character.
pub open spec fn hex_digit_value(c: char) -> int
    recommends
        is_hex_digit(c),
{
    if 48 <= c as int && c as int <= 57 {
        c as int - 48
    } else if 97 <= c as int && c as int <= 102 {
        c as int - 87
    } else {
        c as int - 55
    }
}

/// A valid hex-encoded commit id: exactly 40 hex digits.
pub open spec fn is_hex_id(s: Seq<char>) -> bool {
    s.len() == 40 && (forall|i: int| 0 <= i < s.len() ==> is_hex_digit(#[trigger] s[i]))
}

/// The bytes encoded by a sequence of hex digit pairs.
pub open spec fn hex_bytes(s: Seq<char>) -> Seq<u8> {
    Seq::new((s.len() / 2) as nat, |i: int| (16 * hex_digit_value(s[2 * i]) + hex_digit_value(s[2 * i + 1])) as u8)
}

/// The numeric value of a hex digit character, or `None` for any other
/// character.
fn hex_digit_value_exec(c: char) -> (r: Option<u8>)
    ensures
        r is Some <==> is_hex_digit(c),
        r is Some ==> r.unwrap() as int == hex_digit_value(c) && r.unwrap() < 16,
{
    let v = c as u32;
    if 48 <= v && v <= 57 {
        Some((v - 48) as u8)
    } else if 97 <= v && v <= 102 {
        Some((v - 87) as u8)
    } else if 65 <= v && v <= 70 {
        Some((v - 55) as u8)
    } else {
        None
    }
}

/// Parses a 40-digit hex string into a commit id; any other string is
/// rejected.
pub fn parse_commit_id(s: &str) -> (r: Option<CommitId>)
    ensures
        r is Some <==> is_hex_id(s@),
        r is Some ==> r.unwrap()@ == hex_bytes(s@) && r.unwrap().wf(),
{
    let n = s.unicode_len();
    if n != 40 {
        return None;
    }
    let mut out: Vec<u8> = Vec::new();
    let mut i: usize = 0;
    while i < 20
        invariant
            s@.len() == 40,
            i <= 20,
            out@.len() == i,
            forall|j: int| 0 <= j < 2 * i ==> is_hex_digit(#[trigger] s@[j]),
            forall|j: int| 0 <= j < i ==> out@[j] == (16 * hex_digit_value(s@[2 * j]) + hex_digit_value(
                s@[2 * j + 1],
            )) as u8,
        decreases 20 - i,
    {
        let hi = s.get_char(2 * i);
        let lo = s.get_char(2 * i + 1);
        match (hex_digit_value_exec(hi), hex_digit_value_exec(lo)) {
            (Some(h), Some(l)) => {
                out.push(16 * h + l);
            },
            _ => {
                return None;
            },
        }
        i += 1;
    }
    proof {
        assert(is_hex_id(s@));
        assert(out@ =~= hex_bytes(s@));
    }
    Some(CommitId { bytes: out })
}

} // verus!
