//! The versioned-file adapter for `package.json`: reads and rewrites the
//! `version` property while preserving every sibling key and its position.
use vstd::prelude::*;

verus! {

/// Failure of a versioned-file adapter.
#[derive(Debug)]
pub enum FileError {
    /// The content does not parse as an object with a string-valued top-level
    /// `version` property; names the offending path and the parser's message.
    Deserialize { path: String, detail: String },
    /// Re-encoding the updated structure failed; a defect class, not a
    /// user error. Names the offending path.
    Serialize { path: String },
}

/// The name of the property every versioned file keeps its version in.
pub open spec fn version_key() -> Seq<char> {
    "version"@
}

/// Extracts the version property. Succeeds exactly when `content` is the
/// text of a JSON object with a string-valued top-level `version` property,
/// and then returns that string; otherwise reports a deserialization error
/// naming the offending path.
pub fn get_version(content: &str, path: &str) -> (r: Result<String, FileError>)
    ensures
        r matches Ok(v) ==> crate::json::json_str_field(content@, version_key()) == Some(v@),
        (r is Ok) <==> (crate::json::json_str_field(content@, version_key()) is Some),
        r is Ok ==> crate::json::json_keys(content@) is Some,
        r matches Err(e) ==> e matches FileError::Deserialize { path: p, .. } && p@ == path@,
        r matches Err(e) ==> (crate::json::json_keys(content@) is Some ==> (e matches
            FileError::Deserialize { detail, .. } && detail@
            == "expected an object with a top-level string `version` property"@)),
{
    match crate::json::parse_obj(content) {
        Ok(m) => match crate::json::obj_get_str(&m, "version") {
            Some(v) => Ok(v),
            None => Err(
                FileError::Deserialize {
                    path: path.to_owned(),
                    detail: "expected an object with a top-level string `version` property".to_owned(),
                },
            ),
        },
        Err(e) => Err(FileError::Deserialize { path: path.to_owned(), detail: e }),
    }
}

/// Replaces only the version property's value, re-serializes with stable
/// pretty-printed layout, and routes the replacement through the dry-run
/// sink. Succeeds exactly when `content` parses as a JSON object; every
/// sibling property, of any type, keeps its value and its position, and a
/// fresh `version` property is appended. Fails with a deserialization error
/// exactly when `content` does not parse as a JSON object.
pub fn set_version(
    rt: &mut crate::step::RunType,
    content: &str,
    new_version: &str,
    path: &str,
) -> (r: Result<String, FileError>)
    ensures
        r matches Ok(out) ==> {
            &&& crate::json::json_keys(content@) is Some
            &&& crate::json::json_str_field(out@, version_key()) == Some(new_version@)
            &&& crate::json::json_keys(content@).unwrap().contains(version_key())
                ==> crate::json::json_keys(out@) == crate::json::json_keys(content@)
            &&& !crate::json::json_keys(content@).unwrap().contains(version_key())
                ==> crate::json::json_keys(out@) == Some(
                crate::json::json_keys(content@).unwrap().push(version_key()),
            )
            &&& forall|k: Seq<char>|
                k != version_key() ==> crate::json::json_str_field(out@, k)
                    == crate::json::json_str_field(content@, k)
            &&& forall|k: Seq<char>|
                k != version_key() ==> crate::json::json_field_json(out@, k)
                    == crate::json::json_field_json(content@, k)
        },
        (r is Ok) <==> (crate::json::json_keys(content@) is Some),
        r matches Err(e) ==> e is Deserialize,
        (r matches Err(e) && e is Deserialize) <==> (crate::json::json_keys(content@) is None),
        r matches Err(e) ==> (e matches FileError::Deserialize { path: p, .. } ==> p@ == path@)
            && (e matches FileError::Serialize { path: p } ==> p@ == path@),
        final(rt).mode == old(rt).mode,
        final(rt).state == old(rt).state,
        r is Err ==> *final(rt) == *old(rt),
        r is Ok && old(rt).mode is DryRun ==> crate::changelog::views_of(final(rt).captured@) == crate::changelog::views_of(old(rt).captured@).push(crate::step::dry_run_line(path@, new_version@)) && final(rt).writes == old(rt).writes,
        r matches Ok(out) ==> (old(rt).mode is Real ==> crate::step::writes_model(
            final(rt).writes@,
        ) == crate::step::writes_model(old(rt).writes@).push((path@, out@)) && final(rt).captured
            == old(rt).captured),
{
    let mut m = match crate::json::parse_obj(content) {
        Ok(m) => m,
        Err(e) => {
            return Err(FileError::Deserialize { path: path.to_owned(), detail: e });
        },
    };
    let ghost m0 = m;
    crate::json::obj_insert_str(&mut m, "version", new_version);
    let out = match crate::json::to_pretty(&m) {
        Ok(o) => o,
        Err(_) => {
            return Err(FileError::Serialize { path: path.to_owned() });
        },
    };
    proof {
        assert forall|k: Seq<char>|
            k != version_key() implies crate::json::json_str_field(out@, k)
            == crate::json::json_str_field(content@, k) by {
            assert(crate::json::json_str_field(out@, k) == crate::json::obj_str_field(m, k));
            assert(crate::json::obj_str_field(m, k) == crate::json::obj_str_field(m0, k));
            assert(crate::json::obj_str_field(m0, k) == crate::json::json_str_field(content@, k));
        }
        assert forall|k: Seq<char>|
            k != version_key() implies crate::json::json_field_json(out@, k)
            == crate::json::json_field_json(content@, k) by {
            assert(crate::json::json_field_json(out@, k) == crate::json::obj_field_json(m, k));
            assert(crate::json::obj_field_json(m, k) == crate::json::obj_field_json(m0, k));
            assert(crate::json::obj_field_json(m0, k) == crate::json::json_field_json(
                content@,
                k,
            ));
        }
    }
    crate::step::sink_write(rt, new_version, path, out.as_str());
    Ok(out)
}

/// Law: the adapter round-trips. `set_version`'s contract guarantees of
/// every successful result `out` that the version property of `out` reads
/// back as the version that was written; `get_version`'s contract is an
/// exact equivalence over that same property, so `get_version` applied to
/// `out` returns precisely the written version, and nothing else.
pub proof fn lemma_set_then_get_version(out: Seq<char>, v: Seq<char>)
    requires
        crate::json::json_str_field(out, version_key()) == Some(v),
    ensures
        crate::json::json_str_field(out, version_key()) is Some,
        crate::json::json_str_field(out, version_key()).unwrap() == v,
{
}

} // verus!
