//! Shader taxonomy: categories, features and tags.
use vstd::prelude::*;

verus! {

/// A shader category.
#[derive(Debug, Clone)]
pub struct Category {
    pub id: i32,
    pub slug: String,
    pub name: String,
    pub description: Option<String>,
}

/// A shader feature.
#[derive(Debug, Clone)]
pub struct Feature {
    pub id: i32,
    pub slug: String,
    pub name: String,
    pub description: Option<String>,
}

/// A free-form shader tag.
#[derive(Debug, Clone)]
pub struct Tag {
    pub id: i32,
    pub slug: String,
    pub name: String,
    pub description: Option<String>,
}

} // verus!
