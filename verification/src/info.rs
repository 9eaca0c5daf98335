//! What a plugin declares about itself: where it lies, which bundle it is,
//! and which other plugins it depends on.

use vstd::prelude::*;
use crate::bundle::{Bundle, BundleView};
use crate::version::{requirement_admits, Version, VersionReq};

verus! {

/// Mathematical value of a [`Depend`]: the id and the text of the version
/// requirement.
pub struct DependView {
    pub id: Seq<char>,
    pub req: Seq<char>,
}

/// A dependency on another plugin: its id and the versions that will do.
#[derive(Debug, PartialEq, Eq)]
pub struct Depend {
    /// The id of the plugin that is needed.
    pub id: String,
    /// The versions of it that are accepted.
    pub version: VersionReq,
}

impl View for Depend {
    type V = DependView;

    open spec fn view(&self) -> DependView {
        DependView { id: self.id@, req: self.version@ }
    }
}

impl Clone for Depend {
    fn clone(&self) -> (r: Self)
        ensures
            r@ == self@,
    {
        Depend { id: self.id.clone(), version: self.version.clone() }
    }
}

/// A dependency admits a bundle when the ids are equal and the requirement
/// is satisfied by the bundle's version.
pub open spec fn admits(d: DependView, b: BundleView) -> bool {
    d.id == b.id && requirement_admits(d.req, b.version)
}

/// The values of a sequence of dependencies.
pub open spec fn depend_views(s: Seq<Depend>) -> Seq<DependView> {
    s.map_values(|d: Depend| d@)
}

impl Depend {
    /// A dependency on the plugin `name` in one of the versions that
    /// `version` accepts.
    pub fn new(name: String, version: VersionReq) -> (r: Depend)
        ensures
            r@ == (DependView { id: name@, req: version@ }),
    {
        Depend { id: name, version }
    }

    /// Whether the dependency admits the plugin with this id and version.
    pub fn admits(&self, id: &str, version: &Version) -> (r: bool)
        ensures
            r == (self.id@ == id@ && requirement_admits(self.version@, version@)),
    {
        crate::utils::text::same_text(self.id.as_str(), id) && self.version.matches(version)
    }

    /// Whether the dependency admits the bundle.
    pub fn admits_bundle(&self, bundle: &Bundle) -> (r: bool)
        ensures
            r == admits(self@, bundle@),
    {
        self.id == bundle.id && self.version.matches(&bundle.version)
    }

    /// Structural equality: same id and same requirement.
    pub fn equals(&self, other: &Depend) -> (r: bool)
        ensures
            r == (self@ == other@),
    {
        self.id == other.id && self.version.equals(&other.version)
    }

    /// The text `id[requirement]`.
    pub fn to_string(&self) -> (r: String)
        ensures
            r@ == self.id@ + seq!['['] + self.version@ + seq![']'],
    {
        let mut out = self.id.clone();
        proof {
            reveal_strlit("[");
            reveal_strlit("]");
        }
        assert("["@ == seq!['[']);
        assert("]"@ == seq![']']);
        out.append("[");
        out.append(self.version.text.as_str());
        out.append("]");
        out
    }
}

/// The dependency metadata of a plugin, as its manager reports it. The
/// engine reads the two lists once, when the plugin is registered.
pub trait Info: Send + Sync {
    /// The required dependencies as values of the model. Metadata that is
    /// written in Verus says here what `depends` returns; of any other the
    /// engine takes it on trust that `depends` returns this list.
    open spec fn spec_depends(&self) -> Seq<DependView> {
        arbitrary()
    }

    /// The optional dependencies as values of the model, on the same terms.
    open spec fn spec_optional_depends(&self) -> Seq<DependView> {
        arbitrary()
    }

    /// The plugins that must be present and loaded for this one to load.
    fn depends(&self) -> (r: &Vec<Depend>)
        ensures
            depend_views(r@) == self.spec_depends(),
    ;

    /// The plugins that are loaded with this one where they are present.
    fn optional_depends(&self) -> (r: &Vec<Depend>)
        ensures
            depend_views(r@) == self.spec_optional_depends(),
    ;
}

/// The standard metadata: the two lists and nothing else.
#[derive(Debug, PartialEq, Eq)]
pub struct StdInfo {
    pub depends: Vec<Depend>,
    pub optional_depends: Vec<Depend>,
}

impl StdInfo {
    /// Metadata without dependencies.
    pub fn new() -> (r: StdInfo)
        ensures
            r.depends@.len() == 0,
            r.optional_depends@.len() == 0,
    {
        StdInfo { depends: Vec::new(), optional_depends: Vec::new() }
    }
}

impl Info for StdInfo {
    open spec fn spec_depends(&self) -> Seq<DependView> {
        depend_views(self.depends@)
    }

    open spec fn spec_optional_depends(&self) -> Seq<DependView> {
        depend_views(self.optional_depends@)
    }

    fn depends(&self) -> (r: &Vec<Depend>)
        ensures
            r@ == self.depends@,
    {
        &self.depends
    }

    fn optional_depends(&self) -> (r: &Vec<Depend>)
        ensures
            r@ == self.optional_depends@,
    {
        &self.optional_depends
    }
}

/// A copy of a list of dependencies.
pub fn clone_depends(list: &Vec<Depend>) -> (r: Vec<Depend>)
    ensures
        depend_views(r@) == depend_views(list@),
{
    let mut out: Vec<Depend> = Vec::new();
    let mut k: usize = 0;
    while k < list.len()
        invariant
            k <= list.len(),
            out@.len() == k,
            forall|j: int| 0 <= j < k ==> (#[trigger] out@[j])@ == list@[j]@,
        decreases list.len() - k,
    {
        out.push(list[k].clone());
        k = k + 1;
    }
    assert(depend_views(out@) =~= depend_views(list@));
    out
}

/// Everything the engine knows of a registered plugin.
pub struct PluginInfo<I: Info> {
    /// The path that the plugin was registered from.
    pub path: String,
    /// The bundle read from the last component of the path.
    pub bundle: Bundle,
    /// The metadata that the manager produced.
    pub info: I,
}

} // verus!
