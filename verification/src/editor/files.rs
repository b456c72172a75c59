//! Editor file dialogs: which files each offers, its caption, and when it asks before
//! replacing a file.
use vstd::prelude::*;
use crate::text_scan::{chars_end_with, ends_with, span_is};

verus! {

/// The purpose of a file dialog.
#[derive(Clone, Copy, PartialEq, Eq, Structural)]
pub enum Kind {
    NewProject,
    Open,
    OpenAdditive,
    Save,
    Import,
    Export,
    Exported,
    Bundle,
    LoadBlueprint,
    SaveBlueprint,
    LoadShaderGraph,
    SaveShaderGraph,
}

/// What `Path::extension` gives for the path `path`.
pub uninterp spec fn path_extension(path: Seq<char>) -> Option<Seq<char>>;

/// What `Path::file_name` gives for the path `path`.
pub uninterp spec fn path_file_name(path: Seq<char>) -> Option<Seq<char>>;

/// The extension of `path`. Trusted: `std::path::Path::extension`, whose exact rules (the last
/// component's text after its last `.`, unless that `.` starts the name) are named by
/// `path_extension` and not restated. A path given as `&str` is UTF-8, so the conversion
/// back to text keeps it.
#[verifier::external_body]
fn extension_of(path: &str) -> (ext: Option<Vec<char>>)
    ensures
        match ext {
            Some(e) => path_extension(path@) == Some(e@),
            None => path_extension(path@) is None,
        },
{
    let ext = std::path::Path::new(path).extension()?.to_str()?;
    Some(ext.chars().collect())
}

/// The final component of `path`. Trusted: `std::path::Path::file_name`, named by
/// `path_file_name`.
#[verifier::external_body]
fn file_name_of(path: &str) -> (name: Option<Vec<char>>)
    ensures
        match name {
            Some(n) => path_file_name(path@) == Some(n@),
            None => path_file_name(path@) is None,
        },
{
    let name = std::path::Path::new(path).file_name()?.to_str()?;
    Some(name.chars().collect())
}

/// ASCII letters in lower case, every other character unchanged.
pub open spec fn lower(c: char) -> char {
    if 'A' <= c && c <= 'Z' {
        ((c as u32) + 32) as char
    } else {
        c
    }
}

/// The extensions the import dialog offers.
pub open spec fn import_extensions() -> Seq<Seq<char>> {
    seq![
        "png"@,
        "btex"@,
        "jpg"@,
        "jpeg"@,
        "obj"@,
        "gltf"@,
        "glb"@,
        "bmesh"@,
        "ttf"@,
        "otf"@,
        "wgsl"@,
        "rs"@,
        "wav"@,
        "ogg"@,
        "mp3"@,
        "flac"@,
    ]
}

/// Whether a dialog of this kind lists the file at `path`: imports take known asset
/// extensions, prefabs and materials; blueprint and shader-graph dialogs take their own
/// documents; every other dialog takes JSON.
pub open spec fn accepted(kind: Kind, path: Seq<char>) -> bool {
    let ext = match path_extension(path) {
        Some(e) => e.map_values(|c: char| lower(c)),
        None => Seq::<char>::empty(),
    };
    let name = match path_file_name(path) {
        Some(n) => n,
        None => Seq::<char>::empty(),
    };
    match kind {
        Kind::Import => import_extensions().contains(ext) || ends_with(name, ".prefab.json"@)
            || ends_with(name, ".material.json"@),
        Kind::LoadBlueprint | Kind::SaveBlueprint => ends_with(name, ".blueprint.json"@),
        Kind::LoadShaderGraph | Kind::SaveShaderGraph => ends_with(name, ".shadergraph.json"@),
        _ => ext == "json"@,
    }
}

fn lower_char(c: char) -> (l: char)
    ensures
        l == lower(c),
{
    if 'A' <= c && c <= 'Z' {
        (((c as u32) + 32) as u8) as char
    } else {
        c
    }
}

fn is_import_extension(ext: &Vec<char>) -> (r: bool)
    ensures
        r == import_extensions().contains(ext@),
{
    let n = ext.len();
    let r = span_is(ext, 0, n, "png") || span_is(ext, 0, n, "btex") || span_is(ext, 0, n, "jpg")
        || span_is(ext, 0, n, "jpeg") || span_is(ext, 0, n, "obj") || span_is(ext, 0, n, "gltf")
        || span_is(ext, 0, n, "glb") || span_is(ext, 0, n, "bmesh") || span_is(ext, 0, n, "ttf")
        || span_is(ext, 0, n, "otf") || span_is(ext, 0, n, "wgsl") || span_is(ext, 0, n, "rs")
        || span_is(ext, 0, n, "wav") || span_is(ext, 0, n, "ogg") || span_is(ext, 0, n, "mp3")
        || span_is(ext, 0, n, "flac");
    assert(ext@.subrange(0, n as int) =~= ext@);
    proof {
        let list = import_extensions();
        if r {
            assert(exists|i: int| 0 <= i < list.len() && list[i] == ext@) by {
                if ext@ == list[0] { assert(list[0] == ext@); }
                else if ext@ == list[1] { assert(list[1] == ext@); }
                else if ext@ == list[2] { assert(list[2] == ext@); }
                else if ext@ == list[3] { assert(list[3] == ext@); }
                else if ext@ == list[4] { assert(list[4] == ext@); }
                else if ext@ == list[5] { assert(list[5] == ext@); }
                else if ext@ == list[6] { assert(list[6] == ext@); }
                else if ext@ == list[7] { assert(list[7] == ext@); }
                else if ext@ == list[8] { assert(list[8] == ext@); }
                else if ext@ == list[9] { assert(list[9] == ext@); }
                else if ext@ == list[10] { assert(list[10] == ext@); }
                else if ext@ == list[11] { assert(list[11] == ext@); }
                else if ext@ == list[12] { assert(list[12] == ext@); }
                else if ext@ == list[13] { assert(list[13] == ext@); }
                else if ext@ == list[14] { assert(list[14] == ext@); }
                else { assert(list[15] == ext@); }
            }
        } else {
            assert forall|i: int| 0 <= i < list.len() implies list[i] != ext@ by {}
        }
    }
    r
}

pub fn accepts(kind: Kind, path: &str) -> (accepted_path: bool)
    ensures
        accepted_path == accepted(kind, path@),
{
    let raw_ext = match extension_of(path) {
        Some(e) => e,
        None => Vec::new(),
    };
    let mut ext: Vec<char> = Vec::new();
    let mut i: usize = 0;
    while i < raw_ext.len()
        invariant
            i <= raw_ext@.len(),
            ext@ == raw_ext@.subrange(0, i as int).map_values(|c: char| lower(c)),
        decreases raw_ext@.len() - i,
    {
        ext.push(lower_char(raw_ext[i]));
        i += 1;
        assert(ext@ =~= raw_ext@.subrange(0, i as int).map_values(|c: char| lower(c)));
    }
    assert(raw_ext@.subrange(0, raw_ext@.len() as int) =~= raw_ext@);
    let name = match file_name_of(path) {
        Some(n) => n,
        None => Vec::new(),
    };
    assert(ext@ =~= match path_extension(path@) {
        Some(e) => e.map_values(|c: char| lower(c)),
        None => Seq::<char>::empty(),
    });
    assert(name@ =~= match path_file_name(path@) {
        Some(n) => n,
        None => Seq::<char>::empty(),
    });
    match kind {
        Kind::Import => is_import_extension(&ext) || chars_end_with(&name, ".prefab.json")
            || chars_end_with(&name, ".material.json"),
        Kind::LoadBlueprint | Kind::SaveBlueprint => chars_end_with(&name, ".blueprint.json"),
        Kind::LoadShaderGraph | Kind::SaveShaderGraph => chars_end_with(
            &name,
            ".shadergraph.json",
        ),
        _ => {
            let n = ext.len();
            let r = span_is(&ext, 0, n, "json");
            assert(ext@.subrange(0, n as int) =~= ext@);
            r
        },
    }
}

impl Kind {
    /// The caption of a plain file dialog of this kind; the new-project, export and bundle
    /// dialogs are dialogs of their own and have none.
    pub open spec fn caption(self) -> Option<Seq<char>> {
        match self {
            Kind::Open => Some("Open scene"@),
            Kind::OpenAdditive => Some("Open scene additively"@),
            Kind::Save => Some("Save scene as"@),
            Kind::Import => Some("Import image, model or prefab"@),
            Kind::LoadBlueprint => Some("Load and attach Blueprint copy"@),
            Kind::SaveBlueprint => Some("Save Blueprint graph"@),
            Kind::LoadShaderGraph => Some("Load shader graph"@),
            Kind::SaveShaderGraph => Some("Save shader graph"@),
            _ => None,
        }
    }

    pub fn title(self) -> (title: Option<&'static str>)
        ensures
            match self.caption() {
                Some(c) => title matches Some(t) && t@ == c,
                None => title is None,
            },
    {
        match self {
            Kind::Open => Some("Open scene"),
            Kind::OpenAdditive => Some("Open scene additively"),
            Kind::Save => Some("Save scene as"),
            Kind::Import => Some("Import image, model or prefab"),
            Kind::LoadBlueprint => Some("Load and attach Blueprint copy"),
            Kind::SaveBlueprint => Some("Save Blueprint graph"),
            Kind::LoadShaderGraph => Some("Load shader graph"),
            Kind::SaveShaderGraph => Some("Save shader graph"),
            _ => None,
        }
    }

    /// Dialogs that write a file, and so ask before replacing one.
    pub open spec fn writes(self) -> bool {
        self == Kind::Save || self == Kind::SaveBlueprint || self == Kind::SaveShaderGraph
    }

    /// Whether the dialog's confirm button takes the typed path. A dialog that writes asks
    /// once before replacing an existing file (`exists`): the first press only arms the
    /// replacement (`armed`), the second takes the path.
    pub fn confirm(self, exists: bool, armed: bool) -> (take: bool)
        ensures
            take == !(self.writes() && exists && !armed),
    {
        let writes = match self {
            Kind::Save | Kind::SaveBlueprint | Kind::SaveShaderGraph => true,
            _ => false,
        };
        !(writes && exists && !armed)
    }
}

} // verus!
