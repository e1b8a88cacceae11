//! Decoding of blame commit messages.
//!
//! A blame commit's message begins with a marker token followed by
//! whitespace-separated fields: `<marker> <original_id_hex> [<reserved>
//! <external_revision>]`.  Field 1 is the hex-encoded id of the primary
//! commit the blame commit annotates; field 3, when present, is a revision
//! identifier in a foreign version-control system.  The middle field is an
//! opaque reserved token.  A message with exactly three fields carries a
//! reserved token but no revision, so it decodes with no external revision.

use vstd::prelude::*;

use crate::ids::{hex_bytes, is_hex_id, parse_commit_id, CommitId};

verus! {

/// Characters that separate the fields of a blame commit message: the ASCII
/// whitespace characters.
pub open spec fn is_field_sep(c: char) -> bool {
    c == ' ' || c == '\t' || c == '\n' || c == '\r' || c == '\x0b' || c == '\x0c'
}

fn is_field_sep_exec(c: char) -> (r: bool)
    ensures
        r == is_field_sep(c),
{
    c == ' ' || c == '\t' || c == '\n' || c == '\r' || c == '\x0b' || c == '\x0c'
}

/// Length of the leading run of non-separator characters.
pub open spec fn field_len(s: Seq<char>) -> nat
    decreases s.len(),
{
    if s.len() == 0 || is_field_sep(s[0]) {
        0
    } else {
        1 + field_len(s.drop_first())
    }
}

/// The leading run of non-separator characters never runs past the end.
pub proof fn lemma_field_len_le(s: Seq<char>)
    ensures
        field_len(s) <= s.len(),
    decreases s.len(),
{
    if s.len() == 0 || is_field_sep(s[0]) {
    } else {
        lemma_field_len_le(s.drop_first());
    }
}

/// The whitespace-separated fields of a message, in order.
pub open spec fn split_fields(s: Seq<char>) -> Seq<Seq<char>>
    decreases s.len(),
    via split_fields_decreases
{
    if s.len() == 0 {
        Seq::empty()
    } else if is_field_sep(s[0]) {
        split_fields(s.drop_first())
    } else {
        seq![s.subrange(0, field_len(s) as int)] + split_fields(
            s.subrange(field_len(s) as int, s.len() as int),
        )
    }
}

#[via_fn]
proof fn split_fields_decreases(s: Seq<char>) {
    lemma_field_len_le(s);
}

/// Length of the leading run of non-separator characters, computed on a
/// string.
fn field_len_exec(s: &str) -> (r: usize)
    ensures
        r as nat == field_len(s@),
    decreases s@.len(),
{
    let n = s.unicode_len();
    if n == 0 {
        0
    } else if is_field_sep_exec(s.get_char(0)) {
        0
    } else {
        let rest = s.substring_char(1, n);
        proof {
            assert(rest@ =~= s@.drop_first());
            lemma_field_len_le(s@.drop_first());
        }
        1 + field_len_exec(rest)
    }
}

/// Splits a message into its whitespace-separated fields.
pub fn split_fields_exec(s: &str) -> (r: Vec<String>)
    ensures
        r@.len() == split_fields(s@).len(),
        forall|i: int| 0 <= i < r@.len() ==> r@[i]@ == split_fields(s@)[i],
    decreases s@.len(),
{
    let n = s.unicode_len();
    if n == 0 {
        Vec::new()
    } else if is_field_sep_exec(s.get_char(0)) {
        let rest = s.substring_char(1, n);
        proof {
            assert(rest@ =~= s@.drop_first());
        }
        split_fields_exec(rest)
    } else {
        let k = field_len_exec(s);
        proof {
            lemma_field_len_le(s@);
        }
        let field = s.substring_char(0, k);
        let rest = s.substring_char(k, n);
        let mut r = split_fields_exec(rest);
        r.insert(0, field.to_owned());
        proof {
            let fs = split_fields(s@);
            assert(fs == seq![s@.subrange(0, field_len(s@) as int)] + split_fields(
                s@.subrange(field_len(s@) as int, s@.len() as int),
            ));
            assert(forall|i: int| 0 <= i < r@.len() ==> r@[i]@ == fs[i]);
        }
        r
    }
}

/// A per-entry decode failure.  Neither failure is fatal to a history walk:
/// the walk skips the commit, counts it, and continues.
#[derive(Debug, PartialEq, Eq)]
pub enum DecodeError {
    /// The message has fewer than two whitespace-separated fields.
    MalformedMessage,
    /// The identifier field is not a 40-digit hex commit id.
    InvalidIdentifier,
}

/// The structured record derived from exactly one blame commit: the primary
/// commit it annotates, the blame commit itself, and the optional revision
/// identifier in a foreign version-control system.
#[derive(Debug)]
pub struct BlameEntry {
    pub original_id: CommitId,
    pub blame_id: CommitId,
    pub external_revision: Option<String>,
}

/// Spec-level decoding of a blame commit message: the bytes of the original
/// commit id and the optional external revision, or the per-entry failure.
pub open spec fn spec_decode(msg: Seq<char>) -> Result<(Seq<u8>, Option<Seq<char>>), DecodeError> {
    let fs = split_fields(msg);
    if fs.len() < 2 {
        Err(DecodeError::MalformedMessage)
    } else if !is_hex_id(fs[1]) {
        Err(DecodeError::InvalidIdentifier)
    } else {
        Ok((hex_bytes(fs[1]), if fs.len() >= 4 { Some(fs[3]) } else { None }))
    }
}

/// Law: a message of the full form `<marker> <hex40> <token> <rev>` — four
/// or more fields, a valid id in field 1 — decodes to that id, with the
/// field in position 3 as the external revision.
pub proof fn lemma_decode_full_message(msg: Seq<char>)
    requires
        split_fields(msg).len() >= 4,
        is_hex_id(split_fields(msg)[1]),
    ensures
        spec_decode(msg) is Ok,
        spec_decode(msg)->Ok_0.0 == hex_bytes(split_fields(msg)[1]),
        spec_decode(msg)->Ok_0.1 == Some(split_fields(msg)[3]),
{
}

/// Law: a message of the short form `<marker> <hex40>` — two or three
/// fields, a valid id in field 1 — decodes to that id with no external
/// revision.
pub proof fn lemma_decode_short_message(msg: Seq<char>)
    requires
        2 <= split_fields(msg).len() < 4,
        is_hex_id(split_fields(msg)[1]),
    ensures
        spec_decode(msg) is Ok,
        spec_decode(msg)->Ok_0.0 == hex_bytes(split_fields(msg)[1]),
        spec_decode(msg)->Ok_0.1 is None,
{
}

/// Law: a message with fewer than two whitespace-separated fields fails to
/// decode as malformed.
pub proof fn lemma_decode_too_few_fields(msg: Seq<char>)
    requires
        split_fields(msg).len() < 2,
    ensures
        spec_decode(msg) is Err,
        spec_decode(msg)->Err_0 == DecodeError::MalformedMessage,
{
}

/// Law: a message whose identifier field is not a 40-digit hex id fails to
/// decode with the identifier failure.
pub proof fn lemma_decode_bad_identifier(msg: Seq<char>)
    requires
        split_fields(msg).len() >= 2,
        !is_hex_id(split_fields(msg)[1]),
    ensures
        spec_decode(msg) is Err,
        spec_decode(msg)->Err_0 == DecodeError::InvalidIdentifier,
{
}

/// Decodes one blame commit's message.  `blame_id` is the id of the blame
/// commit the message came from; it is passed through into the entry.  The
/// decoding itself is a pure function of the message text.
pub fn decode_message(blame_id: CommitId, msg: &str) -> (r: Result<BlameEntry, DecodeError>)
    ensures
        r is Ok <==> spec_decode(msg@) is Ok,
        r is Err ==> r->Err_0 == spec_decode(msg@)->Err_0,
        r is Ok ==> ({
            let entry = r->Ok_0;
            let dec = spec_decode(msg@)->Ok_0;
            &&& entry.original_id@ == dec.0
            &&& entry.original_id.wf()
            &&& entry.blame_id == blame_id
            &&& (entry.external_revision is Some <==> dec.1 is Some)
            &&& (entry.external_revision is Some ==> entry.external_revision->0@ == dec.1->0)
        }),
{
    let fields = split_fields_exec(msg);
    if fields.len() < 2 {
        return Err(DecodeError::MalformedMessage);
    }
    let orig = match parse_commit_id(fields[1].as_str()) {
        Some(o) => o,
        None => {
            return Err(DecodeError::InvalidIdentifier);
        },
    };
    let external_revision: Option<String> = if fields.len() >= 4 {
        Some(fields[3].clone())
    } else {
        None
    };
    Ok(BlameEntry { original_id: orig, blame_id, external_revision })
}

} // verus!
