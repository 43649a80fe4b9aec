//! Attesting that an artifact was reproduced.

use in_toto::models::Metablock;
use vstd::prelude::*;

use crate::rebuild::RebuildError;
use crate::text::concat;

verus! {

/// A signed link, as `in_toto` hands it out.
#[verifier::external_type_specification]
#[verifier::external_body]
pub struct ExMetablock(in_toto::models::Metablock);

/// Why `serde_json` could not write a value.
#[verifier::external_type_specification]
#[verifier::external_body]
pub struct ExSerdeJsonError(serde_json::Error);

/// What a link has to say, and how it is put together.
#[derive(Clone, Debug, PartialEq, Eq)]
pub struct LinkRequest {
    /// The name of the step that the link is for.
    pub step: String,
    /// The files that went into the step.
    pub materials: Vec<String>,
    /// The files that came out of the step.
    pub products: Vec<String>,
    /// The hash algorithms that the files are recorded with.
    pub hash_algorithms: Vec<String>,
    /// What is left out at the front of the paths that are recorded.
    pub strip_prefixes: Vec<String>,
}

/// What is recorded and signed for an output artifact that is identical to the
/// downloaded artifact of the name `filename`.
///
/// The paths of the build input and of the output artifact are given as what
/// they read as if they are valid unicode; it fails if one of them is not.
pub fn attestation_request(
    filename: &str,
    input_path: Option<&str>,
    output_path: Option<&str>,
    inputs_dir: &str,
    out_dir: &str,
) -> (request: Result<LinkRequest, RebuildError>)
    ensures
        match (input_path, output_path) {
            (None, _) => request == Err::<LinkRequest, RebuildError>(
                RebuildError::InvalidInputPath,
            ),
            (Some(_), None) => request == Err::<LinkRequest, RebuildError>(
                RebuildError::InvalidOutputPath,
            ),
            (Some(input_path), Some(output_path)) => {
                &&& request matches Ok(request)
                &&& request.step@ == "rebuild "@ + filename@
                &&& request.materials.deep_view() == seq![input_path@]
                &&& request.products.deep_view() == seq![output_path@]
                &&& request.hash_algorithms.deep_view() == seq!["sha512"@, "sha256"@]
                &&& request.strip_prefixes.deep_view() == seq![inputs_dir@ + "/"@, out_dir@ + "/"@]
            },
        },
{
    let step = concat("rebuild ", filename);
    let input_path = match input_path {
        Some(path) => path,
        None => {
            return Err(RebuildError::InvalidInputPath);
        },
    };
    let output_path = match output_path {
        Some(path) => path,
        None => {
            return Err(RebuildError::InvalidOutputPath);
        },
    };
    Ok(LinkRequest {
        step,
        materials: vec![input_path.to_owned()],
        products: vec![output_path.to_owned()],
        hash_algorithms: vec!["sha512".to_owned(), "sha256".to_owned()],
        strip_prefixes: vec![concat(inputs_dir, "/"), concat(out_dir, "/")],
    })
}

/// Whether `serde_json::to_string` can write this link as this text.
///
/// A link keeps the hashes of a file in a map that is walked in no certain order,
/// so there may be several such texts.
pub uninterp spec fn writes_link(link: Metablock, json: Seq<char>) -> bool;

/// Whether a link can be written at all.
pub open spec fn is_writable(link: Metablock) -> bool {
    exists|json: Seq<char>| #[trigger] writes_link(link, json)
}

/// A json object that holds a list of signatures and the object that they sign,
/// which begins with what kind of object it is.
pub open spec fn signed_object(
    signatures: Seq<char>,
    kind: Seq<char>,
    rest: Seq<char>,
) -> Seq<char> {
    "{\"signatures\":["@ + signatures + "],\"signed\":{\"_type\":\""@ + kind + "\","@ + rest
        + "}}"@
}

/// Whether `json` is an object that holds a list of signatures and the link or
/// layout that they sign.
pub open spec fn is_signed_object(json: Seq<char>) -> bool {
    exists|signatures: Seq<char>, kind: Seq<char>, rest: Seq<char>|
        {
            &&& json == #[trigger] signed_object(signatures, kind, rest)
            &&& kind == "link"@ || kind == "layout"@
        }
}

/// `serde_json::to_string` on a signed link.
///
/// It depends on the link alone whether it can be written. If so, the text is one
/// of those that the link can be written as: an object without spaces, first the
/// list of signatures and then what they sign, of which the kind comes first. If
/// not, there is no such text. What else the text holds is not said here.
#[verifier::external_body]
fn link_to_json(link: &Metablock) -> (json: Result<String, serde_json::Error>)
    ensures
        match json {
            Ok(json) => writes_link(*link, json@) && is_signed_object(json@),
            Err(_) => !is_writable(*link),
        },
{
    serde_json::to_string(link)
}

/// Writes a signed link as the json object that is attached to a report.
///
/// Fails if and only if the link can not be written.
pub fn serialize_link(link: &Metablock) -> (json: Result<String, RebuildError>)
    ensures
        json is Ok <==> is_writable(*link),
        match json {
            Ok(json) => writes_link(*link, json@) && is_signed_object(json@),
            Err(err) => err is SerializeAttestation,
        },
{
    match link_to_json(link) {
        Ok(json) => Ok(json),
        Err(err) => Err(RebuildError::SerializeAttestation(err)),
    }
}

} // verus!
