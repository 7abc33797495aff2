//! The agent's profiles: the default profile and one per directory under
//! `profiles/`, with the active one marked.
use vstd::prelude::*;

verus! {

/// A profile and whether it is the active one.
pub struct Profile {
    pub name: String,
    pub is_active: bool,
}

/// The name of the active profile: the one given, or `default`.
pub open spec fn active_name_of(active: Option<String>) -> Seq<char> {
    match active {
        Some(a) => a@,
        None => "default"@,
    }
}

/// (name, is_active) of each profile.
pub open spec fn profile_views(ps: Seq<Profile>) -> Seq<(Seq<char>, bool)> {
    ps.map_values(|p: Profile| (p.name@, p.is_active))
}

/// The profiles: `default` first, then one per directory name in the order
/// given; a profile is active when its name is the active name.
pub open spec fn profile_list(active: Seq<char>, dirs: Seq<String>) -> Seq<(Seq<char>, bool)> {
    seq![("default"@, "default"@ == active)] + dirs.map_values(
        |d: String| (d@, d@ == active),
    )
}

/// The profiles of an agent home whose `profiles/` directory holds the
/// directories `dir_names` (in the order the directory listing gave them).
pub fn profiles_from_dirs(active: Option<String>, dir_names: Vec<String>) -> (r: Vec<Profile>)
    ensures
        profile_views(r@) == profile_list(active_name_of(active), dir_names@),
{
    let active_name = match active {
        Some(a) => a,
        None => String::from_str("default"),
    };
    let ghost act = active_name@;
    let default_name = String::from_str("default");
    let default_active = default_name.eq(&active_name);
    let mut out: Vec<Profile> = Vec::new();
    out.push(Profile { name: default_name, is_active: default_active });
    let mut rest = dir_names;
    let ghost d = rest@;
    let ghost mut i: int = 0;
    while rest.len() > 0
        invariant
            0 <= i <= d.len(),
            rest@ == d.skip(i),
            act == active_name@,
            profile_views(out@) == seq![("default"@, "default"@ == act)] + d.take(i).map_values(
                |x: String| (x@, x@ == act),
            ),
        decreases rest.len(),
    {
        let name = rest.remove(0);
        assert(name == d[i]);
        let is_active = name.eq(&active_name);
        let ghost before = profile_views(out@);
        out.push(Profile { name, is_active });
        proof {
            assert(rest@ =~= d.skip(i + 1));
            assert(profile_views(out@) =~= before + seq![(d[i]@, d[i]@ == act)]);
            assert(d.take(i + 1).map_values(|x: String| (x@, x@ == act)) =~= d.take(i).map_values(
                |x: String| (x@, x@ == act),
            ) + seq![(d[i]@, d[i]@ == act)]);
            i = i + 1;
        }
    }
    assert(d.take(i) =~= d);
    out
}

/// The default profile comes first, one profile follows per directory, and a
/// profile is active exactly when it carries the active name (so the default
/// profile is active when no name is given).
pub proof fn lemma_profiles_shape(active: Option<String>, dirs: Seq<String>)
    ensures
        profile_list(active_name_of(active), dirs).len() == dirs.len() + 1,
        profile_list(active_name_of(active), dirs)[0].0 == "default"@,
        active is None ==> profile_list(active_name_of(active), dirs)[0].1,
        forall|i: int|
            0 <= i < dirs.len() ==> #[trigger] profile_list(active_name_of(active), dirs)[i + 1]
                == (dirs[i]@, dirs[i]@ == active_name_of(active)),
{
}

} // verus!
