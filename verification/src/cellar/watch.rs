//! Announcing games dropped into `~/Games-source/`.
//!
//! Each new top-level directory is announced once per session with the
//! profile its name matches and the command that installs it; hidden
//! entries (names starting with a dot, such as in-progress copies) are
//! never announced. Watching the directory is the caller's.

use vstd::prelude::*;
use vstd::string::StringExecFns;

use crate::bytes::str_chars;
use crate::cellar::profiles::{find_for, first_match, profiles_view, unicode_lower, Profile};
use crate::chars::starts_with;

verus! {

/// A game directory that appeared.
#[derive(Debug, Clone)]
pub struct GameDetected {
    /// The directory's name.
    pub name: String,
    /// Its full path.
    pub path: String,
    /// The matching profile's id and name, if one matches.
    pub profile_id: Option<String>,
    pub profile_name: Option<String>,
    /// The command that installs it.
    pub suggested_cmd: String,
}

/// The command suggested for installing the game in directory `name`.
pub open spec fn install_cmd(name: Seq<char>) -> Seq<char> {
    "./scripts/cellar-install.sh \""@ + name + "\""@
}

/// The announcement for the directory `name` at `path`: `None` for a
/// hidden name; otherwise it carries the first profile whose hints
/// occur in the name (ignoring case) and the install command.
pub fn announcement(name: &str, path: &str, profiles: &[Profile]) -> (r: Option<GameDetected>)
    ensures
        starts_with(name@, seq!['.']) ==> r is None,
        !starts_with(name@, seq!['.']) ==> (r matches Some(d) && d.name@ == name@ && d.path@
            == path@ && d.suggested_cmd@ == install_cmd(name@) && match first_match(
            profiles_view(profiles@),
            unicode_lower(name@),
        ) {
            Some(i) => (d.profile_id matches Some(pid) && pid@ == profiles_view(profiles@)[i].id) && (
            d.profile_name matches Some(pn) && pn@ == profiles_view(profiles@)[i].name),
            None => d.profile_id is None && d.profile_name is None,
        }),
{
    let cs = str_chars(name);
    if cs.len() > 0 && cs[0] == '.' {
        assert(cs@.subrange(0, 1) =~= seq!['.']);
        return None;
    }
    proof {
        if starts_with(name@, seq!['.']) {
            assert(name@.subrange(0, 1)[0] == '.');
        }
    }
    let matched = find_for(name, profiles);
    let (profile_id, profile_name) = match matched {
        Some(p) => (Some(p.id), Some(p.name)),
        None => (None, None),
    };
    Some(
        GameDetected {
            name: String::from_str(name),
            path: String::from_str(path),
            profile_id,
            profile_name,
            suggested_cmd: String::from_str("./scripts/cellar-install.sh \"").concat(name).concat(
                "\"",
            ),
        },
    )
}

/// The directories announced so far this session.
pub struct SeenDirs {
    seen: Vec<String>,
}

impl SeenDirs {
    /// The paths announced so far.
    pub closed spec fn paths(&self) -> Set<Seq<char>> {
        self.seen@.map_values(|s: String| s@).to_set()
    }

    /// Nothing announced yet.
    pub fn new() -> (s: SeenDirs)
        ensures
            s.paths() == Set::<Seq<char>>::empty(),
    {
        let s = SeenDirs { seen: Vec::new() };
        assert(s.seen@.map_values(|x: String| x@) =~= Seq::<Seq<char>>::empty());
        s
    }

    /// Whether `path` is new this session; it counts as seen afterwards.
    pub fn first_sighting(&mut self, path: &str) -> (r: bool)
        ensures
            r == !old(self).paths().contains(path@),
            final(self).paths() == old(self).paths().insert(path@),
    {
        let ghost sv = self.seen@.map_values(|s: String| s@);
        let p = str_chars(path);
        let mut i: usize = 0;
        let mut found = false;
        while i < self.seen.len()
            invariant
                i <= self.seen.len(),
                sv == self.seen@.map_values(|s: String| s@),
                p@ == path@,
                found == exists|j: int| 0 <= j < i && sv[j] == path@,
            decreases self.seen.len() - i,
        {
            let q = str_chars(self.seen[i].as_str());
            let same = crate::chars::eq_chars(q.as_slice(), p.as_slice());
            assert(sv[i as int] == q@);
            if same {
                found = true;
            }
            proof {
                if !same {
                    assert(sv[i as int] != path@);
                    if exists|j: int| 0 <= j < i + 1 && sv[j] == path@ {
                        let j = choose|j: int| 0 <= j < i + 1 && sv[j] == path@;
                        assert(j < i);
                    }
                } else {
                    assert(sv[i as int] == path@);
                }
            }
            i = i + 1;
        }
        proof {
            if found {
                let j = choose|j: int| 0 <= j < sv.len() && sv[j] == path@;
                assert(sv.to_set().contains(sv[j]));
            } else {
                assert(!sv.to_set().contains(path@));
            }
        }
        if found {
            assert(sv.to_set().insert(path@) =~= sv.to_set());
            false
        } else {
            self.seen.push(String::from_str(path));
            proof {
                let nv = self.seen@.map_values(|s: String| s@);
                assert(nv =~= sv.push(path@));
                assert(nv.to_set() =~= sv.to_set().insert(path@)) by {
                    assert forall|x: Seq<char>| nv.to_set().contains(x) <==> sv.to_set().insert(
                        path@,
                    ).contains(x) by {
                        if nv.to_set().contains(x) {
                            let k = choose|k: int| 0 <= k < nv.len() && nv[k] == x;
                            if k < sv.len() {
                                assert(sv[k] == x);
                            }
                        }
                        if sv.to_set().contains(x) {
                            let k = choose|k: int| 0 <= k < sv.len() && sv[k] == x;
                            assert(nv[k] == x);
                        }
                        if x == path@ {
                            assert(nv[sv.len() as int] == x);
                        }
                    }
                }
            }
            true
        }
    }
}

} // verus!
