//! Shader sources as the cache sees them: a handle, the raw text, an
//! optional declared import path, and the import paths the text references.

use vstd::prelude::*;
use crate::keymap::MapKey;

verus! {

/// Stable identifier of a shader source asset; handed out by the external
/// asset system and used only as a key here.
pub type ShaderHandle = u64;

/// A logical name one shader uses to reference another's content: either the
/// dependency's asset path, or a custom name it declared.
pub enum ShaderImport {
    AssetPath(String),
    Custom(String),
}

impl DeepView for ShaderImport {
    type V = (bool, Seq<char>);

    open spec fn deep_view(&self) -> (bool, Seq<char>) {
        match self {
            ShaderImport::AssetPath(p) => (true, p@),
            ShaderImport::Custom(p) => (false, p@),
        }
    }
}

impl ShaderImport {
    /// Whether this is an asset-path import; only those count towards a
    /// shader being fully resolved.
    pub fn is_asset_path(&self) -> (r: bool)
        ensures
            r == self.deep_view().0,
    {
        match self {
            ShaderImport::AssetPath(_) => true,
            ShaderImport::Custom(_) => false,
        }
    }
}

impl MapKey for ShaderImport {
    fn key_eq(&self, other: &Self) -> (r: bool) {
        match (self, other) {
            (ShaderImport::AssetPath(a), ShaderImport::AssetPath(b)) => a.eq(b),
            (ShaderImport::Custom(a), ShaderImport::Custom(b)) => a.eq(b),
            _ => false,
        }
    }

    fn key_clone(&self) -> (r: Self) {
        match self {
            ShaderImport::AssetPath(p) => ShaderImport::AssetPath(p.clone()),
            ShaderImport::Custom(p) => ShaderImport::Custom(p.clone()),
        }
    }
}

/// A shader source: the raw text, the import path it declares for itself (if
/// any), and the imports its text references.
pub struct Shader {
    pub source: String,
    pub import_path: Option<ShaderImport>,
    pub imports: Vec<ShaderImport>,
}

impl Shader {
    /// Builds a shader record from its source text and import lists.
    pub fn new(source: String, import_path: Option<ShaderImport>, imports: Vec<ShaderImport>) -> (r:
        Self)
        ensures
            r.source == source,
            r.import_path == import_path,
            r.imports == imports,
    {
        Shader { source, import_path, imports }
    }
}

/// How many of the listed import views are asset paths.
pub open spec fn count_assets(s: Seq<(bool, Seq<char>)>) -> int
    decreases s.len(),
{
    if s.len() == 0 {
        0
    } else {
        count_assets(s.drop_last()) + if s.last().0 {
            1int
        } else {
            0int
        }
    }
}

pub proof fn lemma_count_assets_bounds(s: Seq<(bool, Seq<char>)>)
    ensures
        0 <= count_assets(s) <= s.len(),
    decreases s.len(),
{
    if s.len() > 0 {
        lemma_count_assets_bounds(s.drop_last());
    }
}

pub proof fn lemma_count_assets_step(s: Seq<(bool, Seq<char>)>, i: int)
    requires
        0 <= i < s.len(),
    ensures
        count_assets(s.take(i + 1)) == count_assets(s.take(i)) + if s[i].0 {
            1int
        } else {
            0int
        },
{
    assert(s.take(i + 1).drop_last() =~= s.take(i));
    assert(s.take(i + 1).last() == s[i]);
}

/// Counts the asset-path imports in a list of import views.
pub fn count_asset_imports(v: &Vec<ShaderImport>) -> (r: usize)
    ensures
        r == count_assets(v.deep_view()),
{
    let ghost dv = v.deep_view();
    let n = v.len();
    let mut r: usize = 0;
    proof {
        assert(dv.take(0) =~= Seq::<(bool, Seq<char>)>::empty());
    }
    for i in 0..n
        invariant
            n == v@.len(),
            n == dv.len(),
            dv == v.deep_view(),
            r == count_assets(dv.take(i as int)),
            r <= i,
    {
        proof {
            lemma_count_assets_step(dv, i as int);
            assert(dv[i as int] == v@[i as int].deep_view());
        }
        if v[i].is_asset_path() {
            r = r + 1;
        }
    }
    proof {
        assert(dv.take(n as int) =~= dv);
    }
    r
}

} // verus!
