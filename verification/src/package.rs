//! Where a scene asset goes inside an exported game.
use vstd::prelude::*;

verus! {

/// One component of a relative asset path.
pub enum PathPart {
    /// A file or folder name.
    Normal(String),
    /// `..`
    Parent,
    /// A root, a prefix or `.`.
    Other,
}

/// A path component as the packaging rules see it.
pub enum PartModel {
    Normal(Seq<char>),
    Parent,
    Other,
}

impl View for PathPart {
    type V = PartModel;

    open spec fn view(&self) -> PartModel {
        match self {
            PathPart::Normal(name) => PartModel::Normal(name@),
            PathPart::Parent => PartModel::Parent,
            PathPart::Other => PartModel::Other,
        }
    }
}

/// What `Path::components` gives for the path `relative`, each component's name as text.
/// The separators are the build target's: `/`, and on Windows builds also `\`.
pub uninterp spec fn path_components(relative: Seq<char>) -> Seq<PartModel>;

/// The components of `relative`. Trusted: `std::path::Path::components`, whose result is
/// named by `path_components`; each component is converted one for one (names via
/// `to_string_lossy`, which keeps the text of a `&str` path).
#[verifier::external_body]
fn components_of(relative: &str) -> (parts: Vec<PathPart>)
    ensures
        parts@.map_values(|p: PathPart| p@) == path_components(relative@),
{
    let mut parts = Vec::new();
    for component in std::path::Path::new(relative).components() {
        parts.push(match component {
            std::path::Component::Normal(name) => PathPart::Normal(name.to_string_lossy().into_owned()),
            std::path::Component::ParentDir => PathPart::Parent,
            std::path::Component::CurDir => PathPart::Other,
            std::path::Component::RootDir => PathPart::Other,
            std::path::Component::Prefix(_) => PathPart::Other,
        });
    }
    parts
}

/// Why an asset path cannot be packaged.
#[derive(Clone, Copy, Debug, PartialEq, Eq, Structural)]
pub enum AssetPathError {
    /// The path leaves the export folder.
    Escapes,
    /// The path names no file.
    Empty,
}

/// The folders and file name of an asset under the export folder, after the first `n`
/// components: starting in `scene`, a name goes one level down and `..` one level up; going
/// up from the export folder itself, or a root, prefix or `.`, escapes.
pub open spec fn walk(parts: Seq<PartModel>, n: nat) -> Result<Seq<Seq<char>>, AssetPathError>
    decreases n,
{
    if n == 0 {
        Ok(seq!["scene"@])
    } else {
        match walk(parts, (n - 1) as nat) {
            Err(e) => Err(e),
            Ok(folders) => match parts[n - 1] {
                PartModel::Normal(name) => Ok(folders.push(name)),
                PartModel::Parent => if folders.len() > 0 {
                    Ok(folders.drop_last())
                } else {
                    Err(AssetPathError::Escapes)
                },
                PartModel::Other => Err(AssetPathError::Escapes),
            },
        }
    }
}

/// Where the asset at `relative` (relative to the scene) goes in the export: the path's
/// components below the export folder, or why it cannot be packaged.
pub open spec fn asset_location(relative: Seq<char>) -> Result<Seq<Seq<char>>, AssetPathError> {
    let parts = path_components(relative);
    match walk(parts, parts.len()) {
        Err(e) => Err(e),
        Ok(folders) => if folders.len() == 0 {
            Err(AssetPathError::Empty)
        } else {
            Ok(folders)
        },
    }
}

/// The components, below the export folder, of the place the scene asset at `relative` is
/// packaged to.
pub fn packaged_asset_parts(relative: &str) -> (result: Result<Vec<String>, AssetPathError>)
    ensures
        match asset_location(relative@) {
            Ok(folders) => result matches Ok(parts) && parts@.map_values(|s: String| s@) == folders,
            Err(e) => result == Err::<Vec<String>, AssetPathError>(e),
        },
{
    let components = components_of(relative);
    let ghost model = components@.map_values(|p: PathPart| p@);
    let mut folders: Vec<String> = Vec::new();
    folders.push(String::from_str("scene"));
    assert(folders@.map_values(|s: String| s@) =~= seq!["scene"@]);
    let mut i: usize = 0;
    while i < components.len()
        invariant
            i <= components@.len(),
            model == components@.map_values(|p: PathPart| p@),
            model == path_components(relative@),
            walk(model, i as nat) == Ok::<Seq<Seq<char>>, AssetPathError>(
                folders@.map_values(|s: String| s@),
            ),
        decreases components@.len() - i,
    {
        let ghost before = folders@;
        assert(model[i as int] == components@[i as int]@);
        match &components[i] {
            PathPart::Normal(name) => {
                folders.push(name.clone());
                assert(folders@.map_values(|s: String| s@) =~= before.map_values(
                    |s: String| s@,
                ).push(name@));
            },
            PathPart::Parent => {
                if folders.len() == 0 {
                    proof {
                        lemma_walk_fails(model, (i + 1) as nat, model.len(), AssetPathError::Escapes);
                    }
                    return Err(AssetPathError::Escapes);
                }
                folders.pop();
                assert(folders@.map_values(|s: String| s@) =~= before.map_values(
                    |s: String| s@,
                ).drop_last());
            },
            PathPart::Other => {
                proof {
                    lemma_walk_fails(model, (i + 1) as nat, model.len(), AssetPathError::Escapes);
                }
                return Err(AssetPathError::Escapes);
            },
        }
        i += 1;
    }
    if folders.len() == 0 {
        return Err(AssetPathError::Empty);
    }
    Ok(folders)
}

proof fn lemma_walk_fails(parts: Seq<PartModel>, n: nat, m: nat, e: AssetPathError)
    requires
        n <= m,
        walk(parts, n) == Err::<Seq<Seq<char>>, AssetPathError>(e),
    ensures
        walk(parts, m) == Err::<Seq<Seq<char>>, AssetPathError>(e),
    decreases m - n,
{
    if n < m {
        lemma_walk_fails(parts, n, (m - 1) as nat, e);
    }
}

} // verus!
