//! Labels the component inspector shows.
use vstd::prelude::*;
use crate::text_scan::same_text;

verus! {

/// The built-in texture patterns, in the order the picker shows them: id and label.
pub open spec fn texture_table() -> Seq<(Seq<char>, Seq<char>)> {
    seq![
        ("white"@, "White / no map"@),
        ("checker"@, "Checker"@),
        ("normals"@, "World normals"@),
        ("procedural_checker"@, "Procedural checker"@),
        ("toon"@, "Toon (3 bands)"@),
    ]
}

/// The label shown for texture `id`: its picker label if it is built in, else the id itself.
pub open spec fn texture_caption(id: Seq<char>) -> Seq<char> {
    if id == texture_table()[0].0 {
        texture_table()[0].1
    } else if id == texture_table()[1].0 {
        texture_table()[1].1
    } else if id == texture_table()[2].0 {
        texture_table()[2].1
    } else if id == texture_table()[3].0 {
        texture_table()[3].1
    } else if id == texture_table()[4].0 {
        texture_table()[4].1
    } else {
        id
    }
}

pub fn texture_label(id: &str) -> (label: String)
    ensures
        label@ == texture_caption(id@),
{
    if same_text(id, "white") {
        String::from_str("White / no map")
    } else if same_text(id, "checker") {
        String::from_str("Checker")
    } else if same_text(id, "normals") {
        String::from_str("World normals")
    } else if same_text(id, "procedural_checker") {
        String::from_str("Procedural checker")
    } else if same_text(id, "toon") {
        String::from_str("Toon (3 bands)")
    } else {
        String::from_str(id)
    }
}

} // verus!
