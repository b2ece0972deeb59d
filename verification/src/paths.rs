//! Resource URIs and relative resource paths.
use crate::error::{append_debug, debug_repr, ModelError};
use crate::json::copy_string;
use crate::text::{
    append_str, chars_eq, chars_eq_str, chars_of, find_char, slice_chars, spec_find, spec_starts_with,
    starts_with, starts_with_chars, str_eq, string_of,
};
use vstd::prelude::*;

verus! {

/// A `..` segment starts at `i`.
pub open spec fn parent_segment_at(p: Seq<char>, i: int) -> bool {
    &&& 0 <= i
    &&& i + 1 < p.len()
    &&& p[i] == '.'
    &&& p[i + 1] == '.'
    &&& (i == 0 || p[i - 1] == '/')
    &&& (i + 2 == p.len() || p[i + 2] == '/')
}

/// A path whose components are all plain names: non-empty, not rooted, not
/// starting with a `.` component, and without `..` components.
pub open spec fn spec_is_plain_relative(p: Seq<char>) -> bool {
    &&& p.len() > 0
    &&& p[0] != '/'
    &&& !(p[0] == '.' && (p.len() == 1 || p[1] == '/'))
    &&& forall|i: int| !parent_segment_at(p, i)
}

pub open spec fn traversal_message(p: Seq<char>) -> Seq<char> {
    "resource path must be relative without traversal: "@ + debug_repr(p)
}

/// Accepts a resource path only if it is relative and every component is a
/// plain name (no root, no `.` prefix, no `..`).
pub fn check_relative_path(path: &str) -> (r: Result<(), ModelError>)
    ensures
        spec_is_plain_relative(path@) ==> r is Ok,
        !spec_is_plain_relative(path@) ==> (r matches Err(ModelError::Validation(m)) && m@
            == traversal_message(path@)),
{
    let p = chars_of(path);
    let n = p.len();
    let mut ok = n > 0 && p[0] != '/' && !(p[0] == '.' && (n == 1 || p[1] == '/'));
    if ok {
        let mut bad = false;
        let mut i: usize = 0;
        while i < n && !bad
            invariant
                n == p@.len(),
                p@ == path@,
                i <= n,
                bad ==> parent_segment_at(p@, i as int),
                forall|j: int| 0 <= j < i ==> !parent_segment_at(p@, j),
            decreases n - i + (if bad { 0int } else { 1int }),
        {
            if n - i > 1 && p[i] == '.' && p[i + 1] == '.' && (i == 0 || p[i - 1] == '/') && (n - i
                == 2 || p[i + 2] == '/') {
                bad = true;
            } else {
                i = i + 1;
            }
        }
        if bad {
            ok = false;
        } else {
            assert forall|j: int| !parent_segment_at(p@, j) by {
                if 0 <= j && j < i {
                }
            }
        }
    }
    if ok {
        Ok(())
    } else {
        let mut m = String::new();
        append_str(&mut m, "resource path must be relative without traversal: ");
        append_debug(&mut m, path);
        Err(ModelError::Validation(m))
    }
}

/// Where a resource URI points, before any filesystem access.
#[derive(Debug, PartialEq, Eq)]
pub enum ResourceTarget {
    /// A filesystem path, used as given.
    Direct(String),
    /// `relative` below the registered package root `root`.
    Within { root: String, relative: String },
}

pub enum TargetView {
    Direct(Seq<char>),
    Within(Seq<char>, Seq<char>),
}

impl ResourceTarget {
    pub open spec fn view(&self) -> TargetView {
        match self {
            ResourceTarget::Direct(p) => TargetView::Direct(p@),
            ResourceTarget::Within { root, relative } => TargetView::Within(root@, relative@),
        }
    }
}

/// The text after the first `://` marker... of `file://`.
pub open spec fn scheme_file() -> Seq<char> {
    "file://"@
}

pub open spec fn scheme_package() -> Seq<char> {
    "package://"@
}

/// Whether `s` contains `://`.
pub open spec fn has_scheme_marker(s: Seq<char>) -> bool {
    exists|i: int| 0 <= i && i + 2 < s.len() && #[trigger] s[i] == ':' && s[i + 1] == '/' && s[i + 2] == '/'
}

fn contains_scheme_marker(s: &[char]) -> (r: bool)
    ensures
        r == has_scheme_marker(s@),
{
    let n = s.len();
    let mut i: usize = 0;
    while i < n
        invariant
            n == s@.len(),
            i <= n,
            forall|j: int|
                0 <= j < i && j + 2 < n ==> !(#[trigger] s@[j] == ':' && s@[j + 1] == '/' && s@[j
                    + 2] == '/'),
        decreases n - i,
    {
        if n - i > 2 && s[i] == ':' && s[i + 1] == '/' && s[i + 2] == '/' {
            return true;
        }
        i = i + 1;
    }
    false
}

/// `(package, relative)` of `package://<package>/<relative>`.
pub open spec fn spec_package_parts(rest: Seq<char>) -> Option<(Seq<char>, Seq<char>)> {
    match spec_find(rest, '/') {
        Some(i) => Some((rest.take(i), rest.skip(i + 1))),
        None => None,
    }
}

fn package_parts(rest: &[char]) -> (r: Option<(Vec<char>, Vec<char>)>)
    ensures
        match (r, spec_package_parts(rest@)) {
            (Some((p, q)), Some((sp, sq))) => p@ == sp && q@ == sq,
            (None, None) => true,
            _ => false,
        },
{
    let n = rest.len();
    match find_char(rest, '/') {
        Some(i) => {
            assert(i < n);
            let p = slice_chars(rest, 0, i);
            let q = slice_chars(rest, i + 1, n);
            assert(p@ == rest@.take(i as int));
            assert(q@ == rest@.skip(i + 1));
            Some((p, q))
        },
        None => None,
    }
}

/// A resolver from `package://<name>/<relative>` URIs to paths below
/// registered package roots. Registering a name again replaces its root.
#[derive(Debug, Clone, Default)]
pub struct PackageResolver {
    packages: Vec<(String, String)>,
}

/// The root registered for `name` (the last registration wins).
pub open spec fn registered_root(packages: Seq<(String, String)>, name: Seq<char>) -> Option<Seq<char>>
    decreases packages.len(),
{
    if packages.len() == 0 {
        None
    } else if packages.last().0@ == name {
        Some(packages.last().1@)
    } else {
        registered_root(packages.drop_last(), name)
    }
}

impl PackageResolver {
    pub closed spec fn root_of(&self, name: Seq<char>) -> Option<Seq<char>> {
        registered_root(self.packages@, name)
    }

    /// A resolver with no packages.
    pub fn new() -> (r: PackageResolver)
        ensures
            forall|name: Seq<char>| r.root_of(name) is None,
    {
        PackageResolver { packages: Vec::new() }
    }

    /// Registers `root` for package `name`.
    pub fn with_package(self, name: String, root: String) -> (r: PackageResolver)
        ensures
            r.root_of(name@) == Some(root@),
            forall|other: Seq<char>| other != name@ ==> r.root_of(other) == self.root_of(other),
    {
        let mut packages = self.packages;
        let ghost before = packages@;
        packages.push((name, root));
        assert(packages@.drop_last() =~= before);
        PackageResolver { packages }
    }

    fn lookup(&self, name: &[char]) -> (r: Option<String>)
        ensures
            match (r, self.root_of(name@)) {
                (Some(x), Some(y)) => x@ == y,
                (None, None) => true,
                _ => false,
            },
    {
        let mut i: usize = self.packages.len();
        assert(self.packages@.take(i as int) =~= self.packages@);
        while i > 0
            invariant
                i <= self.packages@.len(),
                registered_root(self.packages@, name@) == registered_root(
                    self.packages@.take(i as int),
                    name@,
                ),
            decreases i,
        {
            let ghost t = self.packages@.take(i as int);
            assert(t.drop_last() =~= self.packages@.take(i - 1));
            assert(t.last() == self.packages@[i - 1]);
            if chars_eq_str(name, self.packages[i - 1].0.as_str()) {
                return Some(copy_string(&self.packages[i - 1].1));
            }
            i = i - 1;
        }
        None
    }

    /// What resolving `uri` against these packages gives: `file://<path>`
    /// and plain paths are used as given; `package://<name>/<relative>` lies
    /// below the root registered for `name`, with `relative` free of
    /// traversal. Every other form is [`ModelError::UnresolvedResource`].
    pub open spec fn resolves_to(&self, uri: Seq<char>, r: Result<ResourceTarget, ModelError>) -> bool {
        match r {
            Ok(t) => match t@ {
                TargetView::Direct(p) => (spec_starts_with(uri, scheme_file()) && p
                    == uri.skip(7)) || (!spec_starts_with(uri, scheme_file())
                    && !has_scheme_marker(uri) && p == uri),
                TargetView::Within(root, rel) => spec_starts_with(uri, scheme_package())
                    && (spec_package_parts(uri.skip(10)) matches Some((name, srel)) && rel
                    == srel && spec_is_plain_relative(rel) && self.root_of(name) == Some(root)),
            },
            Err(ModelError::UnresolvedResource(u)) => u@ == uri && (
            !spec_starts_with(uri, scheme_file()) && has_scheme_marker(uri)) && (
            !spec_starts_with(uri, scheme_package()) || match spec_package_parts(
                uri.skip(10),
            ) {
                None => true,
                Some((name, rel)) => spec_is_plain_relative(rel) && self.root_of(name) is None,
            }),
            Err(ModelError::Validation(m)) => spec_starts_with(uri, scheme_package())
                && (spec_package_parts(uri.skip(10)) matches Some((_, rel))
                && !spec_is_plain_relative(rel) && m@ == traversal_message(rel)),
            Err(_) => false,
        }
    }

    /// Where `uri` points, before any filesystem access (see
    /// [`PackageResolver::resolves_to`]).
    pub fn locate(&self, uri: &str) -> (r: Result<ResourceTarget, ModelError>)
        ensures
            self.resolves_to(uri@, r),
    {
        proof {
            reveal_strlit("file://");
            reveal_strlit("package://");
        }
        let u = chars_of(uri);
        if starts_with(u.as_slice(), "file://") {
            let p = slice_chars(u.as_slice(), 7, u.len());
            assert(p@ == uri@.skip(7));
            return Ok(ResourceTarget::Direct(string_of(p.as_slice())));
        }
        if !contains_scheme_marker(u.as_slice()) {
            return Ok(ResourceTarget::Direct(uri.to_owned()));
        }
        if !starts_with(u.as_slice(), "package://") {
            return Err(ModelError::UnresolvedResource(uri.to_owned()));
        }
        let rest = slice_chars(u.as_slice(), 10, u.len());
        assert(rest@ == uri@.skip(10));
        let (package, relative) = match package_parts(rest.as_slice()) {
            Some(parts) => parts,
            None => {
                return Err(ModelError::UnresolvedResource(uri.to_owned()));
            },
        };
        let rel = string_of(relative.as_slice());
        check_relative_path(rel.as_str())?;
        match self.lookup(package.as_slice()) {
            Some(root) => Ok(ResourceTarget::Within { root, relative: rel }),
            None => Err(ModelError::UnresolvedResource(uri.to_owned())),
        }
    }
}

/// `uri` is a `package://` URI of package `name`.
pub open spec fn names_package(uri: Seq<char>, name: Seq<char>) -> bool {
    spec_starts_with(uri, scheme_package()) && (spec_package_parts(uri.skip(10)) matches Some((n, _))
        && n == name)
}

/// Adding a package changes only how that package's URIs resolve: a
/// resolver whose roots agree with another's for every other name resolves
/// every URI that does not name the package exactly as the other does.
pub proof fn law_adding_a_package_changes_only_its_uris(
    before: PackageResolver,
    after: PackageResolver,
    name: Seq<char>,
    uri: Seq<char>,
    r: Result<ResourceTarget, ModelError>,
)
    requires
        forall|other: Seq<char>| other != name ==> #[trigger] after.root_of(other) == before.root_of(other),
        !names_package(uri, name),
    ensures
        after.resolves_to(uri, r) == before.resolves_to(uri, r),
{
    if spec_starts_with(uri, scheme_package()) {
        if let Some((n, _)) = spec_package_parts(uri.skip(10)) {
            assert(after.root_of(n) == before.root_of(n));
        }
    }
}

/// Resolution of resource URIs, for callers that bring their own scheme.
pub trait ResourceResolver {
    /// Where `uri` points, before any filesystem access.
    fn resolve(&self, uri: &str) -> Result<ResourceTarget, ModelError>;
}

impl ResourceResolver for PackageResolver {
    fn resolve(&self, uri: &str) -> (r: Result<ResourceTarget, ModelError>)
        ensures
            self.resolves_to(uri@, r),
    {
        self.locate(uri)
    }
}

/// `path` lies within `root`, component by component. Both are canonical
/// paths: absolute, without `.` or `..` components and without repeated or
/// trailing separators (but for the root `/` itself).
pub open spec fn spec_within(root: Seq<char>, path: Seq<char>) -> bool {
    ||| path == root
    ||| (root.len() > 0 && root.last() == '/' && spec_starts_with(path, root))
    ||| spec_starts_with(path, root + seq!['/'])
}

/// Checks that the canonical `path` stays within the canonical `root` and
/// returns it; a path that escapes is a validation error. Canonicalising
/// both (which also follows symbolic links) is the caller's part.
pub fn contained_path(root: &str, path: &str) -> (r: Result<String, ModelError>)
    ensures
        spec_within(root@, path@) ==> (r matches Ok(p) && p@ == path@),
        !spec_within(root@, path@) ==> (r matches Err(ModelError::Validation(m)) && m@
            == "resource path escapes its configured root"@),
{
    let rc = chars_of(root);
    let pc = chars_of(path);
    let mut within = chars_eq(rc.as_slice(), pc.as_slice());
    if !within && rc.len() > 0 && rc[rc.len() - 1] == '/' {
        within = starts_with_chars(pc.as_slice(), rc.as_slice());
    }
    if !within {
        let mut prefix = rc.clone();
        prefix.push('/');
        assert(prefix@ == root@ + seq!['/']);
        within = starts_with_chars(pc.as_slice(), prefix.as_slice());
    }
    if within {
        Ok(path.to_owned())
    } else {
        Err(ModelError::Validation("resource path escapes its configured root".to_owned()))
    }
}

/// Where a profile's `robot.urdf` URI points, before any filesystem access.
#[derive(Debug, PartialEq, Eq)]
pub enum UrdfLocation {
    /// A filesystem path, which must lie within the explicit asset root.
    Local(String),
    /// A path relative to the `dexmate_urdf` package: the asset root, then
    /// `DEXBOT_ASSET_ROOT`, then the bundled files.
    Package(String),
}

pub enum UrdfLocationView {
    Local(Seq<char>),
    Package(Seq<char>),
}

impl UrdfLocation {
    pub open spec fn view(&self) -> UrdfLocationView {
        match self {
            UrdfLocation::Local(p) => UrdfLocationView::Local(p@),
            UrdfLocation::Package(p) => UrdfLocationView::Package(p@),
        }
    }
}

/// Classifies a profile URDF URI: `file://<path>` and plain paths are local
/// files, `package://dexmate_urdf/<relative>` is a package resource, and
/// every other form (another package, another scheme, no `/` after the
/// package name) is [`ModelError::UnresolvedResource`].
pub fn urdf_location(uri: &str) -> (r: Result<UrdfLocation, ModelError>)
    ensures
        match r {
            Ok(t) => match t@ {
                UrdfLocationView::Local(p) => (spec_starts_with(uri@, scheme_file()) && p == uri@.skip(
                    7,
                )) || (!spec_starts_with(uri@, scheme_file()) && !spec_starts_with(
                    uri@,
                    scheme_package(),
                ) && !has_scheme_marker(uri@) && p == uri@),
                UrdfLocationView::Package(rel) => !spec_starts_with(uri@, scheme_file())
                    && spec_starts_with(uri@, scheme_package()) && spec_package_parts(
                    uri@.skip(10),
                ) == Some((("dexmate_urdf"@), rel)),
            },
            Err(ModelError::UnresolvedResource(u)) => u@ == uri@ && !spec_starts_with(
                uri@,
                scheme_file(),
            ) && ((spec_starts_with(uri@, scheme_package()) && !(spec_package_parts(uri@.skip(10)) matches Some(
                (name, _),
            ) && name == "dexmate_urdf"@)) || (!spec_starts_with(uri@, scheme_package())
                && has_scheme_marker(uri@))),
            Err(_) => false,
        },
{
    proof {
        reveal_strlit("file://");
        reveal_strlit("package://");
    }
    let u = chars_of(uri);
    if starts_with(u.as_slice(), "file://") {
        let p = slice_chars(u.as_slice(), 7, u.len());
        assert(p@ == uri@.skip(7));
        return Ok(UrdfLocation::Local(string_of(p.as_slice())));
    }
    if starts_with(u.as_slice(), "package://") {
        let rest = slice_chars(u.as_slice(), 10, u.len());
        assert(rest@ == uri@.skip(10));
        return match package_parts(rest.as_slice()) {
            Some((package, relative)) => {
                if chars_eq_str(package.as_slice(), crate::catalog::URDF_PACKAGE_NAME) {
                    Ok(UrdfLocation::Package(string_of(relative.as_slice())))
                } else {
                    Err(ModelError::UnresolvedResource(uri.to_owned()))
                }
            },
            None => Err(ModelError::UnresolvedResource(uri.to_owned())),
        };
    }
    if contains_scheme_marker(u.as_slice()) {
        return Err(ModelError::UnresolvedResource(uri.to_owned()));
    }
    Ok(UrdfLocation::Local(uri.to_owned()))
}

} // verus!
