//! Names of bundled front-end assets.

use vstd::prelude::*;

use crate::text;

verus! {

/// A request path names an asset when it carries one of the bundled
/// file extensions.
pub open spec fn allowed_asset_name(s: Seq<char>) -> bool {
    ||| ".css"@.is_suffix_of(s)
    ||| ".js"@.is_suffix_of(s)
    ||| ".map"@.is_suffix_of(s)
    ||| ".svg"@.is_suffix_of(s)
    ||| ".webmanifest"@.is_suffix_of(s)
}

/// The path of a bundled front-end asset.
pub struct AssetName(pub String);

impl AssetName {
    /// The bundle's entry page, served for every route the API does not
    /// claim.
    pub fn index_html() -> (r: Self)
        ensures
            r.0@ == "index.html"@,
    {
        AssetName("index.html".to_owned())
    }

    /// Accepts a request path as an asset name exactly when it carries
    /// one of the bundled extensions; every other path is refused.
    pub fn from_param(param: &str) -> (r: Result<AssetName, ()>)
        ensures
            r is Ok <==> allowed_asset_name(param@),
            r matches Ok(a) ==> a.0@ == param@,
    {
        if text::str_ends_with(param, ".css") || text::str_ends_with(param, ".js")
            || text::str_ends_with(param, ".map") || text::str_ends_with(param, ".svg")
            || text::str_ends_with(param, ".webmanifest") {
            Ok(AssetName(param.to_owned()))
        } else {
            Err(())
        }
    }
}

} // verus!
