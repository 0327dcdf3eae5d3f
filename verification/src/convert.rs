//! The conversion pipeline: decode TOML, encode JSON, in strict
//! sequence, short-circuiting on a decode failure.

use vstd::prelude::*;

use crate::decode::{DecodeError, decode, toml_doc};
use crate::json::{json_of, json_members, encode_json};
use crate::value::{SpecValue, wf};

verus! {

/// Converts a TOML document to its JSON text.
///
/// Returns `Ok` exactly when the bytes form a valid TOML document; the
/// result is then the JSON rendering of the document's model,
/// character for character. Returns `Err` exactly when they do not;
/// nothing is produced then. An empty input denotes the empty
/// top-level table and yields `{}`.
pub fn toml_to_json(bytes: &[u8]) -> (r: Result<String, DecodeError>)
    ensures
        r matches Ok(s) ==> (toml_doc(bytes@) matches Some(v) && s@ == json_of(v) && wf(v)),
        r is Ok <==> toml_doc(bytes@) is Some,
        bytes@.len() == 0 ==> (r matches Ok(s) && s@ == seq!['{', '}']),
{
    match decode(bytes) {
        Ok(v) => {
            let out = encode_json(&v);
            proof {
                if bytes@.len() == 0 {
                    assert(json_members(Seq::<(Seq<char>, SpecValue)>::empty())
                        == Seq::<char>::empty());
                    assert(out@ =~= seq!['{', '}']);
                }
            }
            Ok(out)
        },
        Err(e) => Err(e),
    }
}

} // verus!
