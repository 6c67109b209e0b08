use vstd::prelude::*;
use crate::record::{Record, FieldView, fields_view, keys_unique, to_map};
use crate::extract::all_wf;

verus! {

/// The pretty-printed JSON text of an array of objects whose values are strings.
pub uninterp spec fn pretty_json(objects: Seq<Seq<FieldView>>) -> Seq<char>;

/// Relies on serde_json::to_string_pretty over an array of objects built from
/// the pairs: the text depends on the pairs alone.
#[verifier::external_body]
fn objects_to_pretty_json(objects: &Vec<Vec<(String, String)>>) -> (r: String)
    ensures
        r@ == pretty_json(objects@.map_values(|o: Vec<(String, String)>| fields_view(o@))),
{
    let values: Vec<serde_json::Value> = objects.iter().map(|o| serde_json::Value::Object(
        o.iter().map(|(k, v)| (k.clone(), serde_json::Value::String(v.clone()))).collect(),
    )).collect();
    serde_json::to_string_pretty(&values).unwrap_or_default()
}

/// The records as a pretty-printed JSON array of flat objects, one per record.
pub fn records_to_json(data: &[Record]) -> (r: String)
    requires
        all_wf(data@),
    ensures
        exists|objects: Seq<Seq<FieldView>>|
            objects.len() == data@.len() && r@ == pretty_json(objects) && forall|i: int|
                0 <= i < data@.len() ==> keys_unique(#[trigger] objects[i]) && to_map(objects[i]) == data@[i]@,
{
    let mut objects: Vec<Vec<(String, String)>> = Vec::new();
    let mut i: usize = 0;
    while i < data.len()
        invariant
            0 <= i <= data@.len(),
            all_wf(data@),
            objects@.len() == i,
            forall|j: int|
                0 <= j < i ==> keys_unique(fields_view(#[trigger] objects@[j]@)) && to_map(
                    fields_view(objects@[j]@),
                ) == data@[j]@,
        decreases data@.len() - i,
    {
        assert(data@[i as int].wf());
        let e = data[i].entries();
        objects.push(e);
        i = i + 1;
    }
    let r = objects_to_pretty_json(&objects);
    let ghost ov = objects@.map_values(|o: Vec<(String, String)>| fields_view(o@));
    assert forall|j: int| 0 <= j < data@.len() implies keys_unique(#[trigger] ov[j]) && to_map(ov[j]) == data@[j]@ by {
        assert(ov[j] == fields_view(objects@[j]@));
    }
    r
}

} // verus!
