use vstd::prelude::*;

use crate::constraint::ResponseCheck;
use crate::deserializer::Flag;
use crate::json::{json_pairs_view, JsonV, JsonValue};
use crate::serialize::{checks_and_state_fields, checks_and_state_to_fields, meta_json, SerializeMetadata};
use crate::value::{meta_of, strip, BamlValue, BamlValueWithMeta, CompletionState};

verus! {

/// A parsed response: every node carries its parser flags, the results of
/// its checks and, when asked for, its completion state.
#[derive(Debug)]
pub struct ResponseBamlValue(pub BamlValueWithMeta<(Vec<Flag>, Vec<ResponseCheck>, Option<CompletionState>)>);

impl SerializeMetadata for ResponseBamlValue {
    open spec fn metadata_json(&self) -> Seq<(Seq<char>, JsonV)> {
        checks_and_state_fields(meta_of(self.0@).1@, meta_of(self.0@).2)
    }

    fn metadata_fields(&self) -> (r: Vec<(String, JsonValue)>) {
        let m = self.0.meta();
        checks_and_state_to_fields(&m.1, &m.2)
    }
}

impl ResponseBamlValue {
    /// The JSON form of the response: each node with its checks and
    /// completion state.
    pub fn to_json(&self) -> (r: JsonValue)
        ensures
            r@ == meta_json(self.0@),
    {
        self.0.to_json()
    }

    /// The plain value of the response.
    pub fn into_value(self) -> (r: BamlValue)
        ensures
            r@ == strip(self.0@),
    {
        self.0.value()
    }
}

} // verus!
