use vstd::prelude::*;

verus! {

/// (name, value) pairs, both as UTF-8 bytes.
pub type Pairs = Vec<(Vec<u8>, Vec<u8>)>;

/// The pairs as sequences of bytes.
pub open spec fn pairs_view(ps: Pairs) -> Seq<(Seq<u8>, Seq<u8>)> {
    ps@.map_values(|p: (Vec<u8>, Vec<u8>)| (p.0@, p.1@))
}

/// One member of a JSON object, viewed: its name, the compact JSON text of
/// its value, and, where that value is itself an object, its own members as
/// (name, compact text) pairs.
pub type MemberView = (Seq<u8>, Seq<u8>, Option<Seq<(Seq<u8>, Seq<u8>)>>);

/// One member of a JSON object: its name, the compact JSON text of its value,
/// and, where that value is itself an object, its own members with the
/// compact text of their values.
pub struct Member {
    pub name: Vec<u8>,
    pub text: Vec<u8>,
    pub nested: Option<Pairs>,
}

impl View for Member {
    type V = MemberView;

    open spec fn view(&self) -> MemberView {
        (
            self.name@,
            self.text@,
            match self.nested {
                Some(n) => Some(pairs_view(n)),
                None => None,
            },
        )
    }
}

/// The members as views.
pub open spec fn members_view(ms: Vec<Member>) -> Seq<MemberView> {
    ms@.map_values(|m: Member| m@)
}

/// What serde_json reads from `data`: `None` when it is not one well-formed
/// JSON document; `Some(None)` for a document that is not an object;
/// `Some(Some(ms))` for an object, with its members in serde_json's map order.
pub uninterp spec fn decoded(data: Seq<u8>) -> Option<Option<Seq<MemberView>>>;

/// Whether `data` is one well-formed JSON document that is not an object.
pub open spec fn not_an_object(data: Seq<u8>) -> bool {
    decoded(data) == Some(None::<Seq<MemberView>>)
}

/// Relies on `serde_json::from_slice` to parse one JSON document, on
/// `Value::as_object` to read the document and each member's value as an
/// object, and on the `Display` impl of `serde_json::Value` (compact text) for
/// each value.
#[verifier::external_body]
pub(crate) fn decode_object(data: &[u8]) -> (r: Result<Option<Vec<Member>>, String>)
    ensures
        match r {
            Ok(Some(ms)) => decoded(data@) == Some(Some(members_view(ms))),
            Ok(None) => not_an_object(data@),
            Err(_) => decoded(data@) is None,
        },
{
    let v: serde_json::Value = serde_json::from_slice(data).map_err(|e| e.to_string())?;
    Ok(v.as_object().map(|m| m.iter().map(|(k, x)| Member {
        name: k.clone().into_bytes(),
        text: x.to_string().into_bytes(),
        nested: x.as_object().map(|n| {
            n.iter().map(|(k, y)| (k.clone().into_bytes(), y.to_string().into_bytes())).collect()
        }),
    }).collect()))
}

} // verus!
