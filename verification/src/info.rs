//! Metadata from a FOMOD `info.xml` file.
use vstd::prelude::*;

verus! {

/// Metadata from a FOMOD `info.xml` file.
#[derive(Debug, Clone)]
pub struct FomodInfo {
    pub name: Option<String>,
    pub author: Option<String>,
    pub version: Option<String>,
    pub description: Option<String>,
    pub website: Option<String>,
    pub id: Option<String>,
}

} // verus!
