//! What can be wrong with the shape of a country.

use vstd::prelude::*;

verus! {

/// Why a feature of the file of shapes describes no country.
#[derive(Debug)]
pub struct GeonamesParseError {
    pub msg: String,
}

impl GeonamesParseError {
    pub open spec fn spec_message(&self) -> Seq<char> {
        "error converting geojson feature: "@ + self.msg@
    }

    pub fn to_string(&self) -> (s: String)
        ensures
            s@ == self.spec_message(),
    {
        let mut s = String::new();
        crate::text::push_str(&mut s, "error converting geojson feature: ");
        crate::text::push_str(&mut s, self.msg.as_str());
        assert(s@ =~= self.spec_message());
        s
    }
}

} // verus!
