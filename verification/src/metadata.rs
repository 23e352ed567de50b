//! What the package manager says of a workspace, and the packages to index
//! that follow from it.

use vstd::prelude::*;
use crate::model::{CrateKind, Visibility};
use crate::text::{join, join_strs, str_eq, str_views};

verus! {

/// A package to index, before its source is parsed.
#[derive(Debug, Clone)]
pub struct CrateMetadata {
    pub name: String,
    pub kind: CrateKind,
    pub edition: String,
    pub version: String,
    pub external_deps: Vec<String>,
    pub root_file: String,
    pub manifest_dir: String,
}

/// One build target of a package as the package manager reports it.
#[derive(Debug, Clone)]
pub struct TargetFacts {
    pub name: String,
    /// The kinds of the target, such as `lib` or `bin`.
    pub kinds: Vec<String>,
    /// The root source file of the target.
    pub src_path: String,
}

/// One dependency of a package as the package manager reports it.
#[derive(Debug, Clone)]
pub struct DependencyFacts {
    pub name: String,
    /// Whether it is an ordinary dependency: neither for development nor for
    /// the build.
    pub normal: bool,
}

/// One package as the package manager reports it.
#[derive(Debug, Clone)]
pub struct PackageFacts {
    /// Whether the package is a member of the workspace.
    pub member: bool,
    /// The directory of the package's manifest.
    pub manifest_dir: String,
    pub edition: String,
    pub version: String,
    pub dependencies: Vec<DependencyFacts>,
    pub targets: Vec<TargetFacts>,
}

/// A package to index, over character sequences.
pub struct CrateMetadataView {
    pub name: Seq<char>,
    pub kind: CrateKind,
    pub edition: Seq<char>,
    pub version: Seq<char>,
    pub external_deps: Seq<Seq<char>>,
    pub root_file: Seq<char>,
    pub manifest_dir: Seq<char>,
}

impl View for CrateMetadata {
    type V = CrateMetadataView;

    open spec fn view(&self) -> CrateMetadataView {
        CrateMetadataView {
            name: self.name@,
            kind: self.kind,
            edition: self.edition@,
            version: self.version@,
            external_deps: str_views(self.external_deps@),
            root_file: self.root_file@,
            manifest_dir: self.manifest_dir@,
        }
    }
}

/// The packages to index over character sequences.
pub open spec fn crate_views(crates: Seq<CrateMetadata>) -> Seq<CrateMetadataView> {
    crates.map_values(|c: CrateMetadata| c@)
}

/// What a target of the kinds `kinds` builds: a macro processor before a
/// library before an executable, and nothing for a target of other kinds
/// only, such as an example, a test or a benchmark.
pub open spec fn kind_of(kinds: Seq<Seq<char>>) -> Option<CrateKind> {
    if kinds.contains("proc-macro"@) {
        Some(CrateKind::ProcMacro)
    } else if kinds.contains("lib"@) || kinds.contains("rlib"@) {
        Some(CrateKind::Lib)
    } else if kinds.contains("bin"@) {
        Some(CrateKind::Bin)
    } else {
        None
    }
}

/// The names of the ordinary dependencies, in their order.
pub open spec fn normal_deps(deps: Seq<DependencyFacts>) -> Seq<Seq<char>>
    decreases deps.len(),
{
    if deps.len() == 0 {
        Seq::empty()
    } else if deps.last().normal {
        normal_deps(deps.drop_last()).push(deps.last().name@)
    } else {
        normal_deps(deps.drop_last())
    }
}

/// The package to index for one target of the package `pkg`, if the target
/// is of a kind that is indexed.
pub open spec fn crate_of(pkg: PackageFacts, target: TargetFacts) -> Option<CrateMetadataView> {
    match kind_of(str_views(target.kinds@)) {
        Some(kind) => Some(
            CrateMetadataView {
                name: target.name@,
                kind: kind,
                edition: pkg.edition@,
                version: pkg.version@,
                external_deps: normal_deps(pkg.dependencies@),
                root_file: target.src_path@,
                manifest_dir: pkg.manifest_dir@,
            },
        ),
        None => None,
    }
}

/// The packages to index for the first `n` targets of the package `pkg`.
pub open spec fn crates_of_targets(pkg: PackageFacts, n: nat) -> Seq<CrateMetadataView>
    decreases n,
{
    if n == 0 || n > pkg.targets@.len() {
        Seq::empty()
    } else {
        let before = crates_of_targets(pkg, (n - 1) as nat);
        match crate_of(pkg, pkg.targets@[n - 1]) {
            Some(c) => before.push(c),
            None => before,
        }
    }
}

/// The packages to index for the package `pkg`: none where it is no member
/// of the workspace, else one for each of its targets of an indexed kind, in
/// the targets' order.
pub open spec fn crates_of_package(pkg: PackageFacts) -> Seq<CrateMetadataView> {
    if pkg.member {
        crates_of_targets(pkg, pkg.targets@.len())
    } else {
        Seq::empty()
    }
}

/// The packages to index for the packages `pkgs`, in their order.
pub open spec fn crates_of(pkgs: Seq<PackageFacts>) -> Seq<CrateMetadataView>
    decreases pkgs.len(),
{
    if pkgs.len() == 0 {
        Seq::empty()
    } else {
        crates_of(pkgs.drop_last()) + crates_of_package(pkgs.last())
    }
}

/// Whether `kinds` holds the kind `kind`.
fn has_kind(kinds: &Vec<String>, kind: &str) -> (r: bool)
    ensures
        r == str_views(kinds@).contains(kind@),
{
    let mut i: usize = 0;
    while i < kinds.len()
        invariant
            i <= kinds.len(),
            forall|j: int| 0 <= j < i ==> str_views(kinds@)[j] != kind@,
        decreases kinds.len() - i,
    {
        assert(str_views(kinds@)[i as int] == kinds@[i as int]@);
        if str_eq(kinds[i].as_str(), kind) {
            return true;
        }
        i += 1;
    }
    false
}

/// What a target of the given kinds builds, if it is of a kind that is
/// indexed.
pub fn target_kind(kinds: &Vec<String>) -> (r: Option<CrateKind>)
    ensures
        r == kind_of(str_views(kinds@)),
{
    if has_kind(kinds, "proc-macro") {
        Some(CrateKind::ProcMacro)
    } else if has_kind(kinds, "lib") || has_kind(kinds, "rlib") {
        Some(CrateKind::Lib)
    } else if has_kind(kinds, "bin") {
        Some(CrateKind::Bin)
    } else {
        None
    }
}

/// The names of the ordinary dependencies, in their order.
pub fn external_deps(deps: &Vec<DependencyFacts>) -> (r: Vec<String>)
    ensures
        str_views(r@) == normal_deps(deps@),
{
    let mut r: Vec<String> = Vec::new();
    let mut i: usize = 0;
    assert(str_views(r@) =~= normal_deps(deps@.take(0)));
    while i < deps.len()
        invariant
            i <= deps.len(),
            str_views(r@) == normal_deps(deps@.take(i as int)),
        decreases deps.len() - i,
    {
        assert(deps@.take(i + 1).drop_last() =~= deps@.take(i as int));
        if deps[i].normal {
            let ghost before = str_views(r@);
            r.push(deps[i].name.clone());
            assert(str_views(r@) =~= before.push(deps@[i as int].name@));
        }
        i += 1;
    }
    assert(deps@.take(deps.len() as int) =~= deps@);
    r
}

/// A copy of a list of names.
fn copy_names(v: &Vec<String>) -> (r: Vec<String>)
    ensures
        str_views(r@) == str_views(v@),
{
    let mut r: Vec<String> = Vec::new();
    let mut i: usize = 0;
    while i < v.len()
        invariant
            i <= v.len(),
            str_views(r@) == str_views(v@).take(i as int),
        decreases v.len() - i,
    {
        let ghost before = str_views(r@);
        r.push(v[i].clone());
        assert(str_views(r@) =~= before.push(v@[i as int]@));
        assert(str_views(v@).take(i + 1) =~= str_views(v@).take(i as int).push(v@[i as int]@));
        i += 1;
    }
    assert(str_views(v@).take(v.len() as int) =~= str_views(v@));
    r
}

/// The packages to index that follow from what the package manager reports:
/// for each member of the workspace, one for each target that is a macro
/// processor, a library or an executable.
pub fn resolve_crates(packages: &Vec<PackageFacts>) -> (crates: Vec<CrateMetadata>)
    ensures
        crate_views(crates@) == crates_of(packages@),
{
    let mut crates: Vec<CrateMetadata> = Vec::new();
    let mut i: usize = 0;
    assert(crate_views(crates@) =~= crates_of(packages@.take(0)));
    while i < packages.len()
        invariant
            i <= packages.len(),
            crate_views(crates@) == crates_of(packages@.take(i as int)),
        decreases packages.len() - i,
    {
        assert(packages@.take(i + 1).drop_last() =~= packages@.take(i as int));
        let pkg = &packages[i];
        let ghost base = crate_views(crates@);
        if pkg.member {
            let deps = external_deps(&pkg.dependencies);
            let mut k: usize = 0;
            assert(base + crates_of_targets(*pkg, 0) =~= base);
            while k < pkg.targets.len()
                invariant
                    k <= pkg.targets.len(),
                    str_views(deps@) == normal_deps(pkg.dependencies@),
                    crate_views(crates@) == base + crates_of_targets(*pkg, k as nat),
                decreases pkg.targets.len() - k,
            {
                let target = &pkg.targets[k];
                match target_kind(&target.kinds) {
                    Some(kind) => {
                        let ghost sofar = crate_views(crates@);
                        let c = CrateMetadata {
                            name: target.name.clone(),
                            kind: kind,
                            edition: pkg.edition.clone(),
                            version: pkg.version.clone(),
                            external_deps: copy_names(&deps),
                            root_file: target.src_path.clone(),
                            manifest_dir: pkg.manifest_dir.clone(),
                        };
                        assert(Some(c@) == crate_of(*pkg, *target));
                        crates.push(c);
                        assert(crate_views(crates@) =~= sofar.push(c@));
                        assert(base + crates_of_targets(*pkg, (k + 1) as nat) =~= (base
                            + crates_of_targets(*pkg, k as nat)).push(c@));
                    },
                    None => {},
                }
                k += 1;
            }
        } else {
            assert(base + Seq::<CrateMetadataView>::empty() =~= base);
        }
        i += 1;
    }
    assert(packages@.take(packages.len() as int) =~= packages@);
    crates
}

/// The visibility of a declaration as it is written.
#[derive(Debug, Clone, PartialEq, Eq)]
pub enum RawVisibility {
    /// `pub`.
    Public,
    /// `pub(...)`, with the segments of the path between the brackets.
    Restricted(Vec<String>),
    /// Nothing written.
    Inherited,
}

/// The visibility that a written visibility stands for: one restricted to a
/// path other than `super` counts as restricted to the package.
pub open spec fn visibility_of(vis: RawVisibility) -> Visibility {
    match vis {
        RawVisibility::Public => Visibility::Pub,
        RawVisibility::Restricted(path) => if join(str_views(path@), "::"@) == "super"@ {
            Visibility::PubSuper
        } else {
            Visibility::PubCrate
        },
        RawVisibility::Inherited => Visibility::Private,
    }
}

/// Converts a written visibility into one of the four that the index knows.
pub fn convert_visibility(vis: &RawVisibility) -> (r: Visibility)
    ensures
        r == visibility_of(*vis),
{
    match vis {
        RawVisibility::Public => Visibility::Pub,
        RawVisibility::Restricted(path) => {
            let joined = join_strs(path, "::");
            if str_eq(joined.as_str(), "super") {
                Visibility::PubSuper
            } else {
                Visibility::PubCrate
            }
        },
        RawVisibility::Inherited => Visibility::Private,
    }
}

} // verus!
