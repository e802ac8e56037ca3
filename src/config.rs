use vstd::prelude::*;

verus! {

/// Settings of the full-text backend.
pub struct Config {
    pub storage: Storage,
}

/// Storage section of the settings.
pub struct Storage {
    pub tantivy: Tantivy,
}

/// Settings of the full-text index.
pub struct Tantivy {
    pub fields: TantivyFields,
}

/// Fields that the full-text index treats as text.
pub struct TantivyFields {
    pub text: Box<[String]>,
}

} // verus!
