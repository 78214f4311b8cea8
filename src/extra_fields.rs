use vstd::prelude::*;
use crate::json::{
    extend_json_map, keys_unique, lemma_merge_idempotent, lemma_merge_keeps_names_unique,
    lemma_merge_lookup, member, merge_members, unique_names, Json, JsonMap, JsonValue, Members,
};

verus! {

/// The extra fields merged into every event: absent until set.
pub struct ExtraFields {
    pub fields: Option<JsonMap>,
}

/// Why extra fields were not set.
pub enum SetExtraFieldsError {
    /// The value could not be turned into JSON; the text says why.
    InvalidJson(String),
    /// The value is JSON, but not an object.
    NotObject,
}

impl ExtraFields {
    /// A store that holds no extra fields.
    pub fn new() -> (r: ExtraFields)
        ensures
            r.fields is None,
    {
        ExtraFields { fields: None }
    }
}

/// Sets the extra fields to `extra_fields`, the outcome of turning a value
/// into JSON. A failed conversion or a value that is not an object is
/// refused, and the store keeps what it held.
pub fn set_extra_fields(store: &mut ExtraFields, extra_fields: Result<Json, String>) -> (r: Result<
    (),
    SetExtraFieldsError,
>)
    ensures
        match extra_fields {
            Ok(Json::Object(m)) => r is Ok && final(store).fields == Some(m),
            Ok(_) => r matches Err(SetExtraFieldsError::NotObject) && *final(store) == *old(store),
            Err(msg) => r matches Err(SetExtraFieldsError::InvalidJson(t)) && t == msg
                && *final(store) == *old(store),
        },
{
    match extra_fields {
        Ok(Json::Object(m)) => {
            store.fields = Some(m);
            Ok(())
        },
        Ok(_) => Err(SetExtraFieldsError::NotObject),
        Err(msg) => Err(SetExtraFieldsError::InvalidJson(msg)),
    }
}

/// Removes the extra fields.
pub fn clear_extra_fields(store: &mut ExtraFields)
    ensures
        final(store).fields is None,
{
    store.fields = None;
}

/// What `merge_extra_fields` makes of `base`.
pub open spec fn with_extra_fields(store: ExtraFields, base: Members) -> Members {
    match store.fields {
        Some(extra) => merge_members(base, extra@),
        None => base,
    }
}

/// Deep merges the extra fields, where there are any, into `json_map`.
pub fn merge_extra_fields(store: &ExtraFields, json_map: JsonMap) -> (r: JsonMap)
    ensures
        r@ == with_extra_fields(*store, json_map@),
{
    let mut json_map = json_map;
    if let Some(extra) = &store.fields {
        extend_json_map(&mut json_map, extra);
    }
    json_map
}

/// Merging the same extra fields a second time changes nothing. This holds
/// where no object among the extra fields repeats a name.
pub proof fn lemma_extra_fields_idempotent(store: ExtraFields, base: Members)
    requires
        store.fields matches Some(o) ==> unique_names(o@),
    ensures
        with_extra_fields(store, with_extra_fields(store, base)) == with_extra_fields(store, base),
{
    if let Some(o) = store.fields {
        lemma_merge_idempotent(base, o@);
    }
}

/// Under a name that both the document and the extra fields hold, the
/// merged document holds the extra fields' value where one of the two is
/// not an object, and the merge of the two objects where both are.
pub proof fn lemma_extra_fields_win(store: ExtraFields, base: Members, k: Seq<char>)
    requires
        store.fields matches Some(o) ==> keys_unique(o@),
    ensures
        store.fields matches Some(o) ==> member(with_extra_fields(store, base), k) == match member(
            o@,
            k,
        ) {
            None => member(base, k),
            Some(ov) => match (member(base, k), ov) {
                (Some(JsonValue::Object(bm)), JsonValue::Object(om)) => Some(
                    JsonValue::Object(merge_members(bm, om)),
                ),
                _ => Some(ov),
            },
        },
{
    if let Some(o) = store.fields {
        lemma_merge_lookup(base, o@, k);
    }
}

/// Merging extra fields keeps the names of a document unique.
pub proof fn lemma_extra_fields_keep_names_unique(store: ExtraFields, base: Members)
    requires
        keys_unique(base),
    ensures
        keys_unique(with_extra_fields(store, base)),
{
    if let Some(o) = store.fields {
        lemma_merge_keeps_names_unique(base, o@);
    }
}

} // verus!
