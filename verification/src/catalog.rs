//! The built-in profile and fragment catalog, and the bundled URDF asset
//! index.
use crate::text::str_eq;
use vstd::prelude::*;

verus! {

/// The only `package://` name resolvable by the bundled asset tree.
pub const URDF_PACKAGE_NAME: &'static str = "dexmate_urdf";

/// Environment variable naming an external asset root directory that mirrors
/// the package-relative layout of the bundled URDF tree.
pub const ASSET_ROOT_ENV: &'static str = "DEXBOT_ASSET_ROOT";

/// Built-in profile names paired with their file in the profile tree.
pub open spec fn profile_files() -> Seq<(Seq<char>, Seq<char>)> {
    seq![
        ("vega_1"@, "vega_1.yaml"@),
        ("vega_1_f5d6"@, "vega_1_f5d6.yaml"@),
        ("vega_1_gripper"@, "vega_1_gripper.yaml"@),
        ("vega_1p"@, "vega_1p.yaml"@),
        ("vega_1p_f5d6"@, "vega_1p_f5d6.yaml"@),
        ("vega_1p_gripper"@, "vega_1p_gripper.yaml"@),
        ("vega_1u"@, "vega_1u.yaml"@),
        ("vega_1u_f5d6"@, "vega_1u_f5d6.yaml"@),
        ("vega_1u_gripper"@, "vega_1u_gripper.yaml"@),
    ]
}

/// The plain fragments that built-in profiles `extends`; they are not
/// standalone profiles.
pub open spec fn fragment_files() -> Seq<Seq<char>> {
    seq![
        "common/vega_upper_body.yaml"@,
        "common/vega_mobile_base.yaml"@,
        "common/vega_1_sensors.yaml"@,
        "common/vega_1p_sensors.yaml"@,
        "common/vega_hands_f5d6.yaml"@,
        "common/vega_hands_gripper.yaml"@,
    ]
}

/// The package-relative paths of the bundled URDF files.
pub open spec fn urdf_files() -> Seq<Seq<char>> {
    seq![
        "robots/humanoid/vega_1p/vega_1p_no_ft.urdf"@,
        "robots/humanoid/vega_1p/vega_1p_no_ft_gripper.urdf"@,
        "robots/humanoid/vega_1p/vega_1p_no_ft_f5d6.urdf"@,
        "robots/humanoid/vega_1u/vega_1u_no_ft.urdf"@,
        "robots/humanoid/vega_1u/vega_1u_no_ft_gripper.urdf"@,
        "robots/humanoid/vega_1u/vega_1u_no_ft_f5d6.urdf"@,
        "robots/humanoid/vega_1/vega_1.urdf"@,
        "robots/humanoid/vega_1/vega_1_f5d6.urdf"@,
        "robots/humanoid/vega_1/vega_1_gripper.urdf"@,
        "robots/humanoid/vega_1p/vega_1p.urdf"@,
        "robots/humanoid/vega_1p/vega_1p_f5d6.urdf"@,
        "robots/humanoid/vega_1p/vega_1p_gripper.urdf"@,
        "robots/humanoid/vega_1u/vega_1u.urdf"@,
        "robots/humanoid/vega_1u/vega_1u_f5d6.urdf"@,
        "robots/humanoid/vega_1u/vega_1u_gripper.urdf"@,
    ]
}

fn profile_table() -> (r: &'static [(&'static str, &'static str)])
    ensures
        r@.len() == profile_files().len(),
        forall|i: int|
            0 <= i < r@.len() ==> (#[trigger] r@[i]).0@ == profile_files()[i].0 && r@[i].1@
                == profile_files()[i].1,
{
    &[
        ("vega_1", "vega_1.yaml"),
        ("vega_1_f5d6", "vega_1_f5d6.yaml"),
        ("vega_1_gripper", "vega_1_gripper.yaml"),
        ("vega_1p", "vega_1p.yaml"),
        ("vega_1p_f5d6", "vega_1p_f5d6.yaml"),
        ("vega_1p_gripper", "vega_1p_gripper.yaml"),
        ("vega_1u", "vega_1u.yaml"),
        ("vega_1u_f5d6", "vega_1u_f5d6.yaml"),
        ("vega_1u_gripper", "vega_1u_gripper.yaml"),
    ]
}

fn fragment_table() -> (r: &'static [&'static str])
    ensures
        r@.len() == fragment_files().len(),
        forall|i: int| 0 <= i < r@.len() ==> (#[trigger] r@[i])@ == fragment_files()[i],
{
    &[
        "common/vega_upper_body.yaml",
        "common/vega_mobile_base.yaml",
        "common/vega_1_sensors.yaml",
        "common/vega_1p_sensors.yaml",
        "common/vega_hands_f5d6.yaml",
        "common/vega_hands_gripper.yaml",
    ]
}

fn urdf_table() -> (r: &'static [&'static str])
    ensures
        r@.len() == urdf_files().len(),
        forall|i: int| 0 <= i < r@.len() ==> (#[trigger] r@[i])@ == urdf_files()[i],
{
    &[
        "robots/humanoid/vega_1p/vega_1p_no_ft.urdf",
        "robots/humanoid/vega_1p/vega_1p_no_ft_gripper.urdf",
        "robots/humanoid/vega_1p/vega_1p_no_ft_f5d6.urdf",
        "robots/humanoid/vega_1u/vega_1u_no_ft.urdf",
        "robots/humanoid/vega_1u/vega_1u_no_ft_gripper.urdf",
        "robots/humanoid/vega_1u/vega_1u_no_ft_f5d6.urdf",
        "robots/humanoid/vega_1/vega_1.urdf",
        "robots/humanoid/vega_1/vega_1_f5d6.urdf",
        "robots/humanoid/vega_1/vega_1_gripper.urdf",
        "robots/humanoid/vega_1p/vega_1p.urdf",
        "robots/humanoid/vega_1p/vega_1p_f5d6.urdf",
        "robots/humanoid/vega_1p/vega_1p_gripper.urdf",
        "robots/humanoid/vega_1u/vega_1u.urdf",
        "robots/humanoid/vega_1u/vega_1u_f5d6.urdf",
        "robots/humanoid/vega_1u/vega_1u_gripper.urdf",
    ]
}

/// The file, within the profile tree, of the built-in profile `name`.
pub fn source(name: &str) -> (r: Option<&'static str>)
    ensures
        match r {
            Some(f) => exists|i: int|
                0 <= i < profile_files().len() && #[trigger] profile_files()[i].0 == name@
                    && profile_files()[i].1 == f@,
            None => forall|i: int|
                0 <= i < profile_files().len() ==> #[trigger] profile_files()[i].0 != name@,
        },
{
    let t = profile_table();
    let mut i: usize = 0;
    while i < t.len()
        invariant
            t@.len() == profile_files().len(),
            forall|j: int|
                0 <= j < t@.len() ==> (#[trigger] t@[j]).0@ == profile_files()[j].0 && t@[j].1@
                    == profile_files()[j].1,
            i <= t@.len(),
            forall|j: int| 0 <= j < i ==> #[trigger] profile_files()[j].0 != name@,
        decreases t@.len() - i,
    {
        if str_eq(t[i].0, name) {
            assert(profile_files()[i as int].0 == name@);
            return Some(t[i].1);
        }
        i = i + 1;
    }
    None
}

/// The file of the embedded plain fragment `name` (a path such as
/// `common/vega_upper_body.yaml`), if it is one.
pub fn fragment_source(name: &str) -> (r: Option<&'static str>)
    ensures
        match r {
            Some(f) => f@ == name@ && fragment_files().contains(name@),
            None => !fragment_files().contains(name@),
        },
{
    let t = fragment_table();
    let mut i: usize = 0;
    while i < t.len()
        invariant
            t@.len() == fragment_files().len(),
            forall|j: int| 0 <= j < t@.len() ==> (#[trigger] t@[j])@ == fragment_files()[j],
            i <= t@.len(),
            forall|j: int| 0 <= j < i ==> #[trigger] fragment_files()[j] != name@,
        decreases t@.len() - i,
    {
        if str_eq(t[i], name) {
            assert(fragment_files()[i as int] == name@);
            return Some(t[i]);
        }
        i = i + 1;
    }
    None
}

/// The canonical `'static` path of a bundled URDF, for a package-relative
/// path, if it is bundled. Callers key process-wide caches by it.
pub fn urdf_entry(relative_path: &str) -> (r: Option<&'static str>)
    ensures
        match r {
            Some(f) => f@ == relative_path@ && urdf_files().contains(relative_path@),
            None => !urdf_files().contains(relative_path@),
        },
{
    let t = urdf_table();
    let mut i: usize = 0;
    while i < t.len()
        invariant
            t@.len() == urdf_files().len(),
            forall|j: int| 0 <= j < t@.len() ==> (#[trigger] t@[j])@ == urdf_files()[j],
            i <= t@.len(),
            forall|j: int| 0 <= j < i ==> #[trigger] urdf_files()[j] != relative_path@,
        decreases t@.len() - i,
    {
        if str_eq(t[i], relative_path) {
            assert(urdf_files()[i as int] == relative_path@);
            return Some(t[i]);
        }
        i = i + 1;
    }
    None
}

} // verus!
