//! Per-game runtime profiles.
//!
//! A bundled set of profiles can be overridden or extended by the
//! user's own: user entries are tried first, and a user profile shadows
//! the bundled profile with the same id. A profile matches a game when
//! one of its name hints occurs in the game's name, ignoring case; the
//! first matching profile wins.

use vstd::prelude::*;

use crate::cellar::library::{GameSettings, GameSettingsView};

verus! {

/// One profile.
#[derive(Debug, Clone)]
pub struct Profile {
    pub id: String,
    pub name: String,
    /// Substrings tried, ignoring case, against the game's name. With
    /// none the profile never matches by itself.
    pub match_name_contains: Vec<String>,
    pub description: String,
    pub settings: GameSettings,
    /// Human-readable preconditions (e.g. `proton_winrt_dlls`).
    pub requires: Vec<String>,
}

pub struct ProfileView {
    pub id: Seq<char>,
    pub name: Seq<char>,
    pub match_name_contains: Seq<Seq<char>>,
    pub description: Seq<char>,
    pub settings: GameSettingsView,
    pub requires: Seq<Seq<char>>,
}

impl View for Profile {
    type V = ProfileView;

    open spec fn view(&self) -> ProfileView {
        ProfileView {
            id: self.id@,
            name: self.name@,
            match_name_contains: self.match_name_contains@.map_values(|s: String| s@),
            description: self.description@,
            settings: self.settings@,
            requires: self.requires@.map_values(|s: String| s@),
        }
    }
}

/// The profiles, as values.
pub open spec fn profiles_view(p: Seq<Profile>) -> Seq<ProfileView> {
    p.map_values(|x: Profile| x@)
}

/// What `str::to_lowercase` makes of a text (full Unicode lower-casing).
pub uninterp spec fn unicode_lower(s: Seq<char>) -> Seq<char>;

/// `str::to_lowercase`; trusted to give `unicode_lower(s)`.
#[verifier::external_body]
pub(crate) fn to_lowercase(s: &str) -> (r: String)
    ensures
        r@ == unicode_lower(s@),
{
    s.to_lowercase()
}

/// `needle` occurs in `hay` (as `str::contains`; the empty text occurs
/// everywhere).
pub open spec fn has_substring(hay: Seq<char>, needle: Seq<char>) -> bool {
    exists|i: int| 0 <= i <= hay.len() - needle.len() && #[trigger] hay.subrange(i, i + needle.len()) == needle
}

/// `needle` occurs in `hay`.
pub fn contains_text(hay: &[char], needle: &[char]) -> (r: bool)
    ensures
        r == has_substring(hay@, needle@),
{
    if needle.len() > hay.len() {
        return false;
    }
    let mut i: usize = 0;
    while i <= hay.len() - needle.len()
        invariant
            needle.len() <= hay.len(),
            i <= hay.len() - needle.len() + 1,
            forall|k: int| 0 <= k < i ==> #[trigger] hay@.subrange(k, k + needle@.len()) != needle@,
        decreases hay.len() - needle.len() + 1 - i,
    {
        let mut j: usize = 0;
        let mut same = true;
        while j < needle.len()
            invariant
                i + needle.len() <= hay.len(),
                j <= needle.len(),
                same == forall|t: int| 0 <= t < j ==> hay@[i + t] == needle@[t],
            decreases needle.len() - j,
        {
            if hay[i + j] != needle[j] {
                same = false;
            }
            j = j + 1;
        }
        if same {
            assert(hay@.subrange(i as int, i + needle@.len()) =~= needle@);
            return true;
        }
        proof {
            let k = choose|t: int| 0 <= t < needle.len() && hay@[i + t] != needle@[t];
            assert(hay@.subrange(i as int, i + needle@.len())[k] != needle@[k]);
        }
        i = i + 1;
    }
    false
}

/// The text `lit` occurs in `hay`.
pub fn contains_str(hay: &[char], lit: &str) -> (r: bool)
    ensures
        r == has_substring(hay@, lit@),
{
    let n = crate::bytes::str_chars(lit);
    contains_text(hay, n.as_slice())
}

/// Some hint of `p` occurs in the lower-cased game name `lname`.
pub open spec fn profile_matches(p: ProfileView, lname: Seq<char>) -> bool {
    exists|k: int|
        0 <= k < p.match_name_contains.len() && has_substring(
            lname,
            unicode_lower(#[trigger] p.match_name_contains[k]),
        )
}

/// Index of the first profile that matches `lname`.
pub open spec fn first_match(profiles: Seq<ProfileView>, lname: Seq<char>) -> Option<int>
    decreases profiles.len(),
{
    if profiles.len() == 0 {
        None
    } else if profile_matches(profiles[0], lname) {
        Some(0)
    } else {
        match first_match(profiles.drop_first(), lname) {
            Some(i) => Some(i + 1),
            None => None,
        }
    }
}

proof fn lemma_first_match(profiles: Seq<ProfileView>, lname: Seq<char>, i: int)
    requires
        0 <= i <= profiles.len(),
        forall|j: int| 0 <= j < i ==> !profile_matches(#[trigger] profiles[j], lname),
    ensures
        first_match(profiles, lname) == match first_match(profiles.skip(i), lname) {
            Some(k) => Some(k + i),
            None => None::<int>,
        },
    decreases i,
{
    if i > 0 {
        lemma_first_match(profiles.drop_first(), lname, i - 1);
        assert(profiles.drop_first().skip(i - 1) =~= profiles.skip(i));
        assert(!profile_matches(profiles[0], lname));
    } else {
        assert(profiles.skip(0) =~= profiles);
    }
}

impl Profile {
    /// An independent copy.
    pub fn duplicate(&self) -> (p: Profile)
        ensures
            p@ == self@,
    {
        Profile {
            id: self.id.clone(),
            name: self.name.clone(),
            match_name_contains: copy_texts(&self.match_name_contains),
            description: self.description.clone(),
            settings: self.settings.duplicate(),
            requires: copy_texts(&self.requires),
        }
    }
}

fn copy_texts(v: &Vec<String>) -> (r: Vec<String>)
    ensures
        r@.map_values(|a: String| a@) == v@.map_values(|a: String| a@),
{
    let mut r: Vec<String> = Vec::new();
    let mut i: usize = 0;
    while i < v.len()
        invariant
            i <= v.len(),
            r@.map_values(|a: String| a@) =~= v@.subrange(0, i as int).map_values(|a: String| a@),
        decreases v.len() - i,
    {
        let ghost before = r@.map_values(|a: String| a@);
        r.push(v[i].clone());
        proof {
            assert(r@.map_values(|a: String| a@) =~= before.push(v@[i as int]@));
            assert(v@.subrange(0, i + 1).map_values(|a: String| a@) =~= v@.subrange(
                0,
                i as int,
            ).map_values(|a: String| a@).push(v@[i as int]@));
        }
        i = i + 1;
    }
    assert(v@.subrange(0, i as int) =~= v@);
    r
}

/// Whether some hint of `p` occurs in the lower-cased name `lname`.
fn matches_name(p: &Profile, lname: &[char]) -> (r: bool)
    ensures
        r == profile_matches(p@, lname@),
{
    let hints = &p.match_name_contains;
    let mut k: usize = 0;
    while k < hints.len()
        invariant
            k <= hints.len(),
            hints@.map_values(|s: String| s@) == p@.match_name_contains,
            forall|t: int| 0 <= t < k ==> !has_substring(lname@, unicode_lower(#[trigger] p@.match_name_contains[t])),
        decreases hints.len() - k,
    {
        let hint = to_lowercase(hints[k].as_str());
        let hc = crate::bytes::str_chars(hint.as_str());
        assert(p@.match_name_contains[k as int] == hints@[k as int]@);
        if contains_text(lname, hc.as_slice()) {
            return true;
        }
        k = k + 1;
    }
    false
}

/// The first profile one of whose hints occurs in `game_name`, ignoring
/// case, among `profiles` (user profiles first, as [`merge_profiles`]
/// orders them).
pub fn find_for(game_name: &str, profiles: &[Profile]) -> (r: Option<Profile>)
    ensures
        match first_match(profiles_view(profiles@), unicode_lower(game_name@)) {
            Some(i) => r matches Some(p) && p@ == profiles_view(profiles@)[i],
            None => r is None,
        },
{
    let needle = to_lowercase(game_name);
    let lname = crate::bytes::str_chars(needle.as_str());
    let ghost pv = profiles_view(profiles@);
    let mut i: usize = 0;
    while i < profiles.len()
        invariant
            i <= profiles.len(),
            pv == profiles_view(profiles@),
            lname@ == unicode_lower(game_name@),
            forall|j: int| 0 <= j < i ==> !profile_matches(#[trigger] pv[j], lname@),
        decreases profiles.len() - i,
    {
        if matches_name(&profiles[i], lname.as_slice()) {
            proof {
                lemma_first_match(pv, lname@, i as int);
                assert(pv.skip(i as int)[0] == pv[i as int]);
            }
            return Some(profiles[i].duplicate());
        }
        i = i + 1;
    }
    proof {
        lemma_first_match(pv, lname@, i as int);
    }
    None
}

/// Whether some profile of `profiles` has id `id`.
pub open spec fn has_id(profiles: Seq<ProfileView>, id: Seq<char>) -> bool {
    exists|j: int| 0 <= j < profiles.len() && #[trigger] profiles[j].id == id
}

/// The bundled profiles no user profile shadows, in order.
pub open spec fn unshadowed(bundled: Seq<ProfileView>, user: Seq<ProfileView>) -> Seq<ProfileView>
    decreases bundled.len(),
{
    if bundled.len() == 0 {
        bundled
    } else if has_id(user, bundled.last().id) {
        unshadowed(bundled.drop_last(), user)
    } else {
        unshadowed(bundled.drop_last(), user).push(bundled.last())
    }
}

/// All profiles in lookup order: the user's, then the bundled ones that
/// no user profile shadows by id.
pub fn merge_profiles(user: Vec<Profile>, bundled: Vec<Profile>) -> (r: Vec<Profile>)
    ensures
        profiles_view(r@) == profiles_view(user@) + unshadowed(
            profiles_view(bundled@),
            profiles_view(user@),
        ),
{
    let ghost uv = profiles_view(user@);
    let ghost bv = profiles_view(bundled@);
    let mut out: Vec<Profile> = Vec::new();
    let mut i: usize = 0;
    while i < user.len()
        invariant
            i <= user.len(),
            uv == profiles_view(user@),
            profiles_view(out@) =~= uv.subrange(0, i as int),
        decreases user.len() - i,
    {
        let ghost before = profiles_view(out@);
        out.push(user[i].duplicate());
        proof {
            assert(profiles_view(out@) =~= before.push(uv[i as int]));
            assert(uv.subrange(0, i + 1) =~= uv.subrange(0, i as int).push(uv[i as int]));
        }
        i = i + 1;
    }
    assert(uv.subrange(0, i as int) =~= uv);
    let mut k: usize = 0;
    while k < bundled.len()
        invariant
            k <= bundled.len(),
            uv == profiles_view(user@),
            bv == profiles_view(bundled@),
            profiles_view(out@) =~= uv + unshadowed(bv.subrange(0, k as int), uv),
        decreases bundled.len() - k,
    {
        let b = &bundled[k];
        proof {
            assert(bv.subrange(0, k + 1).drop_last() =~= bv.subrange(0, k as int));
            assert(bv.subrange(0, k + 1).last() == b@);
        }
        let mut shadowed = false;
        let mut j: usize = 0;
        while j < user.len()
            invariant
                j <= user.len(),
                uv == profiles_view(user@),
                shadowed == exists|t: int| 0 <= t < j && #[trigger] uv[t].id == b@.id,
            decreases user.len() - j,
        {
            assert(uv[j as int] == user@[j as int]@);
            let same = user[j].id == b.id;
            if same {
                shadowed = true;
            }
            proof {
                if same {
                    assert(uv[j as int].id == b@.id);
                }
            }
            j = j + 1;
        }
        if !shadowed {
            let ghost before = profiles_view(out@);
            out.push(b.duplicate());
            assert(profiles_view(out@) =~= before.push(b@));
        }
        k = k + 1;
    }
    assert(bv.subrange(0, k as int) =~= bv);
    out
}

} // verus!
