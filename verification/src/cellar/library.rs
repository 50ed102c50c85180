//! The game library: games tied to a bottle (Wine prefix), an
//! installed path and the `.exe` to launch, with per-game settings.
//! Every change is made here; storing the library is the caller's.

use vstd::prelude::*;
use vstd::string::StringExecFns;
use crate::cellar::wine::now_ms;

verus! {

/// Why a library operation failed.
#[derive(Debug)]
pub enum LibraryError {
    HomeNotFound,
    NotFound { id: String },
    IoError { message: String },
}

pub enum LibraryErrorView {
    HomeNotFound,
    NotFound { id: Seq<char> },
    IoError { message: Seq<char> },
}

impl View for LibraryError {
    type V = LibraryErrorView;

    open spec fn view(&self) -> LibraryErrorView {
        match self {
            LibraryError::HomeNotFound => LibraryErrorView::HomeNotFound,
            LibraryError::NotFound { id } => LibraryErrorView::NotFound { id: id@ },
            LibraryError::IoError { message } => LibraryErrorView::IoError { message: message@ },
        }
    }
}

/// How a game is launched.
#[derive(Debug, Clone)]
pub struct GameSettings {
    /// DXVK on for D3D9 / D3D11 translation.
    pub dxvk: bool,
    /// ESYNC: eventfd-style signalling for multi-threaded games.
    pub esync: bool,
    /// MSYNC: the Apple-Silicon fast synchronisation primitive.
    pub msync: bool,
    /// MoltenVK fences on the DXVK path.
    pub metal_fences: bool,
    /// Apple's Metal HUD overlay.
    pub metal_hud: bool,
    /// Extra DLL overrides appended to DXVK's when DXVK is on.
    pub dll_overrides: Option<String>,
    /// Extra environment variables, name and value.
    pub env: Vec<(String, String)>,
    /// Extra arguments passed after the `.exe` path.
    pub launch_args: Vec<String>,
}

pub struct GameSettingsView {
    pub dxvk: bool,
    pub esync: bool,
    pub msync: bool,
    pub metal_fences: bool,
    pub metal_hud: bool,
    pub dll_overrides: Option<Seq<char>>,
    pub env: Seq<(Seq<char>, Seq<char>)>,
    pub launch_args: Seq<Seq<char>>,
}

impl View for GameSettings {
    type V = GameSettingsView;

    open spec fn view(&self) -> GameSettingsView {
        GameSettingsView {
            dxvk: self.dxvk,
            esync: self.esync,
            msync: self.msync,
            metal_fences: self.metal_fences,
            metal_hud: self.metal_hud,
            dll_overrides: match self.dll_overrides {
                Some(s) => Some(s@),
                None => None,
            },
            env: self.env@.map_values(|e: (String, String)| (e.0@, e.1@)),
            launch_args: self.launch_args@.map_values(|a: String| a@),
        }
    }
}

/// The settings a game gets when no profile says otherwise: DXVK,
/// ESYNC and MSYNC on, everything else off or empty.
pub open spec fn default_settings() -> GameSettingsView {
    GameSettingsView {
        dxvk: true,
        esync: true,
        msync: true,
        metal_fences: false,
        metal_hud: false,
        dll_overrides: None,
        env: Seq::empty(),
        launch_args: Seq::empty(),
    }
}

impl Default for GameSettings {
    fn default() -> (s: Self)
        ensures
            s@ == default_settings(),
    {
        let s = GameSettings {
            dxvk: true,
            esync: true,
            msync: true,
            metal_fences: false,
            metal_hud: false,
            dll_overrides: None,
            env: Vec::new(),
            launch_args: Vec::new(),
        };
        assert(s@.env =~= Seq::<(Seq<char>, Seq<char>)>::empty());
        assert(s@.launch_args =~= Seq::<Seq<char>>::empty());
        s
    }
}

fn copy_strings(v: &Vec<String>) -> (r: Vec<String>)
    ensures
        r@.map_values(|a: String| a@) == v@.map_values(|a: String| a@),
{
    let mut r: Vec<String> = Vec::new();
    let mut i: usize = 0;
    while i < v.len()
        invariant
            i <= v.len(),
            r@.map_values(|a: String| a@) =~= v@.subrange(0, i as int).map_values(|a: String| a@),
        decreases v.len() - i,
    {
        let ghost before = r@.map_values(|a: String| a@);
        r.push(v[i].clone());
        proof {
            assert(r@.map_values(|a: String| a@) =~= before.push(v@[i as int]@));
            assert(v@.subrange(0, i + 1).map_values(|a: String| a@) =~= v@.subrange(
                0,
                i as int,
            ).map_values(|a: String| a@).push(v@[i as int]@));
        }
        i = i + 1;
    }
    assert(v@.subrange(0, i as int) =~= v@);
    r
}

fn copy_pairs(v: &Vec<(String, String)>) -> (r: Vec<(String, String)>)
    ensures
        r@.map_values(|e: (String, String)| (e.0@, e.1@)) == v@.map_values(
            |e: (String, String)| (e.0@, e.1@),
        ),
{
    let mut r: Vec<(String, String)> = Vec::new();
    let mut i: usize = 0;
    while i < v.len()
        invariant
            i <= v.len(),
            r@.map_values(|e: (String, String)| (e.0@, e.1@)) =~= v@.subrange(0, i as int).map_values(
                |e: (String, String)| (e.0@, e.1@),
            ),
        decreases v.len() - i,
    {
        let (k, val) = &v[i];
        let ghost before = r@.map_values(|e: (String, String)| (e.0@, e.1@));
        r.push((k.clone(), val.clone()));
        proof {
            let e = v@[i as int];
            assert(r@.map_values(|e: (String, String)| (e.0@, e.1@)) =~= before.push((e.0@, e.1@)));
            assert(v@.subrange(0, i + 1).map_values(|e: (String, String)| (e.0@, e.1@)) =~= v@.subrange(
                0,
                i as int,
            ).map_values(|e: (String, String)| (e.0@, e.1@)).push((e.0@, e.1@)));
        }
        i = i + 1;
    }
    assert(v@.subrange(0, i as int) =~= v@);
    r
}

impl GameSettings {
    /// An independent copy.
    pub fn duplicate(&self) -> (s: GameSettings)
        ensures
            s@ == self@,
    {
        let dll_overrides = match &self.dll_overrides {
            Some(d) => Some(d.clone()),
            None => None,
        };
        GameSettings {
            dxvk: self.dxvk,
            esync: self.esync,
            msync: self.msync,
            metal_fences: self.metal_fences,
            metal_hud: self.metal_hud,
            dll_overrides,
            env: copy_pairs(&self.env),
            launch_args: copy_strings(&self.launch_args),
        }
    }
}

/// One game of the library.
#[derive(Debug, Clone)]
pub struct Game {
    pub id: String,
    pub name: String,
    pub bottle_id: String,
    pub install_dir: String,
    pub launch_exe: String,
    pub last_played_ms: Option<u128>,
    pub total_play_ms: u128,
    pub settings: GameSettings,
}

pub struct GameView {
    pub id: Seq<char>,
    pub name: Seq<char>,
    pub bottle_id: Seq<char>,
    pub install_dir: Seq<char>,
    pub launch_exe: Seq<char>,
    pub last_played_ms: Option<u128>,
    pub total_play_ms: u128,
    pub settings: GameSettingsView,
}

impl View for Game {
    type V = GameView;

    open spec fn view(&self) -> GameView {
        GameView {
            id: self.id@,
            name: self.name@,
            bottle_id: self.bottle_id@,
            install_dir: self.install_dir@,
            launch_exe: self.launch_exe@,
            last_played_ms: self.last_played_ms,
            total_play_ms: self.total_play_ms,
            settings: self.settings@,
        }
    }
}

impl Game {
    /// An independent copy.
    pub fn duplicate(&self) -> (g: Game)
        ensures
            g@ == self@,
    {
        Game {
            id: self.id.clone(),
            name: self.name.clone(),
            bottle_id: self.bottle_id.clone(),
            install_dir: self.install_dir.clone(),
            launch_exe: self.launch_exe.clone(),
            last_played_ms: self.last_played_ms,
            total_play_ms: self.total_play_ms,
            settings: self.settings.duplicate(),
        }
    }
}

/// The stored form of the library.
#[derive(Debug, Clone, Default)]
pub struct LibraryFile {
    pub games: Vec<Game>,
}

/// The games of some stored games.
pub open spec fn games_view(games: Seq<Game>) -> Seq<GameView> {
    games.map_values(|g: Game| g@)
}

/// Index of the first game with id `id`.
pub open spec fn first_with_id(games: Seq<GameView>, id: Seq<char>) -> Option<int>
    decreases games.len(),
{
    if games.len() == 0 {
        None
    } else if games[0].id == id {
        Some(0)
    } else {
        match first_with_id(games.drop_first(), id) {
            Some(i) => Some(i + 1),
            None => None,
        }
    }
}

pub(crate) proof fn lemma_first_with_id(games: Seq<GameView>, id: Seq<char>)
    ensures
        first_with_id(games, id) matches Some(i) ==> 0 <= i < games.len() && games[i].id == id
            && forall|j: int| 0 <= j < i ==> games[j].id != id,
        first_with_id(games, id) is None ==> forall|j: int| 0 <= j < games.len() ==> games[j].id != id,
    decreases games.len(),
{
    if games.len() > 0 {
        lemma_first_with_id(games.drop_first(), id);
        if games[0].id != id {
            assert forall|j: int| 0 < j < games.len() implies games[j] == games.drop_first()[j - 1] by {}
        }
    }
}

/// `games` without those whose id is `id`, in order.
pub open spec fn without_id(games: Seq<GameView>, id: Seq<char>) -> Seq<GameView>
    decreases games.len(),
{
    if games.len() == 0 {
        games
    } else if games.last().id == id {
        without_id(games.drop_last(), id)
    } else {
        without_id(games.drop_last(), id).push(games.last())
    }
}

proof fn lemma_without_id_len(games: Seq<GameView>, id: Seq<char>)
    ensures
        without_id(games, id).len() <= games.len(),
        without_id(games, id).len() == games.len() <==> forall|j: int|
            0 <= j < games.len() ==> games[j].id != id,
        without_id(games, id).len() == games.len() ==> without_id(games, id) == games,
    decreases games.len(),
{
    if games.len() > 0 {
        lemma_without_id_len(games.drop_last(), id);
        if games.last().id != id && without_id(games.drop_last(), id) == games.drop_last() {
            assert(games.drop_last().push(games.last()) =~= games);
        }
        if forall|j: int| 0 <= j < games.len() ==> games[j].id != id {
            assert forall|j: int| 0 <= j < games.drop_last().len() implies games.drop_last()[j].id
                != id by {
                assert(games.drop_last()[j] == games[j]);
            }
        }
    }
}

/// `a` and `b` are the same text.
fn str_eq(a: &str, b: &str) -> (r: bool)
    ensures
        r == (a@ == b@),
{
    let ca = crate::bytes::str_chars(a);
    let cb = crate::bytes::str_chars(b);
    crate::chars::eq_chars(ca.as_slice(), cb.as_slice())
}

/// The library: its games, in the order they were added.
pub struct Library {
    file: LibraryFile,
}

impl Library {
    /// The games, as values.
    pub closed spec fn games(&self) -> Seq<GameView> {
        games_view(self.file.games@)
    }

    /// A library holding the games of a stored library.
    pub fn new(file: LibraryFile) -> (l: Library)
        ensures
            l.games() == games_view(file.games@),
    {
        Library { file }
    }

    /// The stored form, for saving.
    pub fn file(&self) -> (f: &LibraryFile)
        ensures
            games_view(f.games@) == self.games(),
    {
        &self.file
    }

    /// Copies of all the games.
    pub fn list(&self) -> (r: Vec<Game>)
        ensures
            games_view(r@) == self.games(),
    {
        let games = &self.file.games;
        let mut r: Vec<Game> = Vec::new();
        let mut i: usize = 0;
        while i < games.len()
            invariant
                i <= games.len(),
                games_view(r@) =~= games_view(games@.subrange(0, i as int)),
            decreases games.len() - i,
        {
            let ghost before = games_view(r@);
            r.push(games[i].duplicate());
            proof {
                assert(games_view(r@) =~= before.push(games@[i as int]@));
                assert(games_view(games@.subrange(0, i + 1)) =~= games_view(
                    games@.subrange(0, i as int),
                ).push(games@[i as int]@));
            }
            i = i + 1;
        }
        assert(games@.subrange(0, i as int) =~= games@);
        r
    }

    /// Add a game at the end.
    pub fn add(&mut self, game: Game) -> (r: Result<(), LibraryError>)
        ensures
            r is Ok,
            final(self).games() == old(self).games().push(game@),
    {
        let ghost before = games_view(self.file.games@);
        let ghost g = game@;
        self.file.games.push(game);
        assert(games_view(self.file.games@) =~= before.push(g));
        Ok(())
    }

    /// Remove every game with id `id`; `NotFound` when there is none.
    pub fn remove(&mut self, id: &str) -> (r: Result<(), LibraryError>)
        ensures
            match first_with_id(old(self).games(), id@) {
                None => r matches Err(e) && e@ == (LibraryErrorView::NotFound { id: id@ })
                    && final(self).games() == old(self).games(),
                Some(_) => r is Ok && final(self).games() == without_id(old(self).games(), id@),
            },
    {
        let ghost before = games_view(self.file.games@);
        proof {
            lemma_first_with_id(before, id@);
            lemma_without_id_len(before, id@);
        }
        let kept = Self::keep_others(&self.file.games, id);
        if kept.len() == self.file.games.len() {
            return Err(LibraryError::NotFound { id: String::from_str(id) });
        }
        self.file.games = kept;
        Ok(())
    }

    fn keep_others(games: &Vec<Game>, id: &str) -> (r: Vec<Game>)
        ensures
            games_view(r@) == without_id(games_view(games@), id@),
    {
        let ghost gv = games_view(games@);
        let mut r: Vec<Game> = Vec::new();
        let mut i: usize = 0;
        while i < games.len()
            invariant
                i <= games.len(),
                gv == games_view(games@),
                games_view(r@) =~= without_id(gv.subrange(0, i as int), id@),
            decreases games.len() - i,
        {
            proof {
                assert(gv.subrange(0, i + 1).drop_last() =~= gv.subrange(0, i as int));
                assert(gv.subrange(0, i + 1).last() == games@[i as int]@);
            }
            if !str_eq(games[i].id.as_str(), id) {
                let ghost before = games_view(r@);
                r.push(games[i].duplicate());
                assert(games_view(r@) =~= before.push(games@[i as int]@));
            }
            i = i + 1;
        }
        assert(gv.subrange(0, i as int) =~= gv);
        r
    }

    /// A copy of game `i`.
    fn copy_at(games: &Vec<Game>, i: usize) -> (g: Game)
        requires
            i < games@.len(),
        ensures
            g@ == games@[i as int]@,
    {
        games[i].duplicate()
    }

    /// Index of the first game with id `id`.
    fn find_in(games: &Vec<Game>, id: &str) -> (r: Option<usize>)
        ensures
            match first_with_id(games_view(games@), id@) {
                Some(i) => r matches Some(j) && j == i,
                None => r is None,
            },
    {
        let ghost gv = games_view(games@);
        proof {
            lemma_first_with_id(gv, id@);
        }
        let mut i: usize = 0;
        while i < games.len()
            invariant
                i <= games.len(),
                gv == games_view(games@),
                forall|j: int| 0 <= j < i ==> gv[j].id != id@,
            decreases games.len() - i,
        {
            assert(gv[i as int] == games@[i as int]@);
            if str_eq(games[i].id.as_str(), id) {
                proof {
                    lemma_first_with_id(gv, id@);
                    if let Some(k) = first_with_id(gv, id@) {
                        if k > i {
                            assert(gv[i as int].id == id@);
                        }
                    }
                }
                return Some(i);
            }
            i = i + 1;
        }
        None
    }

    /// Replace the settings of the first game with id `id`.
    #[verifier::spinoff_prover]
    pub fn update_settings(&mut self, id: &str, settings: GameSettings) -> (r: Result<(), LibraryError>)
        ensures
            first_with_id(old(self).games(), id@) is None ==> (r matches Err(e) && e@
                == (LibraryErrorView::NotFound { id: id@ }) && final(self).games() == old(
                self,
            ).games()),
            first_with_id(old(self).games(), id@) matches Some(i) ==> (r is Ok && final(self).games()
                == old(self).games().update(i, GameView { settings: settings@, ..old(self).games()[i] })),
    {
        proof {
            lemma_first_with_id(self.games(), id@);
        }
        let found = Self::find_in(&self.file.games, id);
        if found.is_none() {
            return Err(LibraryError::NotFound { id: String::from_str(id) });
        }
        let i = found.unwrap();
        assert(first_with_id(old(self).games(), id@) == Some(i as int));
        let ghost sv = settings@;
        let mut g = Self::copy_at(&self.file.games, i);
        g.settings = settings;
        let ghost before = games_view(self.file.games@);
        let ghost gv = g@;
        assert(gv == GameView { settings: sv, ..before[i as int] });
        let mut games: Vec<Game> = Vec::new();
        std::mem::swap(&mut games, &mut self.file.games);
        games.set(i, g);
        self.file.games = games;
        assert(games_view(self.file.games@) =~= before.update(i as int, gv));
        assert(self.games() == old(self).games().update(
            i as int,
            GameView { settings: sv, ..old(self).games()[i as int] },
        ));
        Ok(())
    }

    /// Stamp the first game with id `id` as last played now: the clock
    /// is read once and handed to `mark_played_at`, so whatever time it
    /// gives, only that game's `last_played_ms` changes.
    pub fn mark_played_now(&mut self, id: &str) -> (r: Result<(), LibraryError>)
        ensures
            match first_with_id(old(self).games(), id@) {
                None => r matches Err(e) && e@ == (LibraryErrorView::NotFound { id: id@ })
                    && final(self).games() == old(self).games(),
                Some(i) => r is Ok && final(self).games()[i].last_played_ms is Some
                    && final(self).games() == old(self).games().update(
                    i,
                    GameView { last_played_ms: final(self).games()[i].last_played_ms, ..old(self).games()[i] },
                ),
            },
    {
        let now = now_ms();
        proof {
            lemma_first_with_id(self.games(), id@);
        }
        let r = self.mark_played_at(id, now);
        proof {
            if let Some(i) = first_with_id(old(self).games(), id@) {
                assert(self.games()[i] == GameView { last_played_ms: Some(now), ..old(self).games()[i] });
            }
        }
        r
    }

    /// Stamp the first game with id `id` as last played at `now_ms`
    /// (milliseconds since the Unix epoch).
    #[verifier::spinoff_prover]
    pub fn mark_played_at(&mut self, id: &str, now_ms: u128) -> (r: Result<(), LibraryError>)
        ensures
            match first_with_id(old(self).games(), id@) {
                None => r matches Err(e) && e@ == (LibraryErrorView::NotFound { id: id@ })
                    && final(self).games() == old(self).games(),
                Some(i) => r is Ok && final(self).games() == old(self).games().update(
                    i,
                    GameView { last_played_ms: Some(now_ms), ..old(self).games()[i] },
                ),
            },
    {
        proof {
            lemma_first_with_id(self.games(), id@);
        }
        let found = Self::find_in(&self.file.games, id);
        if found.is_none() {
            return Err(LibraryError::NotFound { id: String::from_str(id) });
        }
        let i = found.unwrap();
        assert(first_with_id(old(self).games(), id@) == Some(i as int));
        let mut g = Self::copy_at(&self.file.games, i);
        g.last_played_ms = Some(now_ms);
        let ghost before = games_view(self.file.games@);
        let ghost gv = g@;
        assert(gv == GameView { last_played_ms: Some(now_ms), ..before[i as int] });
        let mut games: Vec<Game> = Vec::new();
        std::mem::swap(&mut games, &mut self.file.games);
        games.set(i, g);
        self.file.games = games;
        assert(games_view(self.file.games@) =~= before.update(i as int, gv));
        assert(self.games() == old(self).games().update(
            i as int,
            GameView { last_played_ms: Some(now_ms), ..old(self).games()[i as int] },
        ));
        Ok(())
    }

    /// Add `ms` to the total play time of the first game with id `id`,
    /// stopping at the largest value a u128 holds.
    #[verifier::spinoff_prover]
    pub fn add_play_time(&mut self, id: &str, ms: u128) -> (r: Result<(), LibraryError>)
        ensures
            match first_with_id(old(self).games(), id@) {
                None => r matches Err(e) && e@ == (LibraryErrorView::NotFound { id: id@ })
                    && final(self).games() == old(self).games(),
                Some(i) => r is Ok && final(self).games() == old(self).games().update(
                    i,
                    GameView {
                        total_play_ms: if old(self).games()[i].total_play_ms + ms > u128::MAX {
                            u128::MAX
                        } else {
                            (old(self).games()[i].total_play_ms + ms) as u128
                        },
                        ..old(self).games()[i]
                    },
                ),
            },
    {
        proof {
            lemma_first_with_id(self.games(), id@);
        }
        let found = Self::find_in(&self.file.games, id);
        if found.is_none() {
            return Err(LibraryError::NotFound { id: String::from_str(id) });
        }
        let i = found.unwrap();
        assert(first_with_id(old(self).games(), id@) == Some(i as int));
        let mut g = Self::copy_at(&self.file.games, i);
        g.total_play_ms = g.total_play_ms.saturating_add(ms);
        let ghost before = games_view(self.file.games@);
        let ghost gv = g@;
        let mut games: Vec<Game> = Vec::new();
        std::mem::swap(&mut games, &mut self.file.games);
        games.set(i, g);
        self.file.games = games;
        assert(games_view(self.file.games@) =~= before.update(i as int, gv));
        assert(self.games() == old(self).games().update(i as int, gv));
        Ok(())
    }
}

/// `uuid::Uuid::new_v4().to_string()`: a random id. Every outcome is a
/// hyphenated UUID, 36 characters long; nothing else is stated.
#[verifier::external_body]
fn new_game_id() -> (s: String)
    ensures
        s@.len() == 36,
{
    uuid::Uuid::new_v4().to_string()
}

/// A new game for the library, with a fresh random id, never played,
/// and the settings of the first profile matching its name (or the
/// default settings when none matches).
pub fn new_game(
    name: String,
    bottle_id: String,
    install_dir: String,
    launch_exe: String,
    profiles: &[crate::cellar::profiles::Profile],
) -> (g: Game)
    ensures
        g@.id.len() == 36,
        g@.name == name@,
        g@.bottle_id == bottle_id@,
        g@.install_dir == install_dir@,
        g@.launch_exe == launch_exe@,
        g@.last_played_ms is None,
        g@.total_play_ms == 0,
        g@.settings == match crate::cellar::profiles::first_match(
            crate::cellar::profiles::profiles_view(profiles@),
            crate::cellar::profiles::unicode_lower(name@),
        ) {
            Some(i) => crate::cellar::profiles::profiles_view(profiles@)[i].settings,
            None => default_settings(),
        },
{
    let settings = match crate::cellar::profiles::find_for(name.as_str(), profiles) {
        Some(p) => p.settings,
        None => GameSettings::default(),
    };
    Game {
        id: new_game_id(),
        name,
        bottle_id,
        install_dir,
        launch_exe,
        last_played_ms: None,
        total_play_ms: 0,
        settings,
    }
}

/// Once a game is removed, no game with its id is left.
pub proof fn lemma_removed_is_gone(games: Seq<GameView>, id: Seq<char>)
    ensures
        forall|j: int| 0 <= j < without_id(games, id).len() ==> (#[trigger] without_id(games, id)[j]).id != id,
    decreases games.len(),
{
    if games.len() > 0 {
        lemma_removed_is_gone(games.drop_last(), id);
    }
}

/// Removing keeps every other game, in order: the games left are exactly
/// those whose id differs.
pub proof fn lemma_remove_keeps_others(games: Seq<GameView>, id: Seq<char>)
    ensures
        without_id(games, id) == games.filter(|g: GameView| g.id != id),
    decreases games.len(),
{
    reveal(Seq::filter);
    if games.len() > 0 {
        lemma_remove_keeps_others(games.drop_last(), id);
    }
}

/// Removing a game twice: the second removal finds no game with the id.
pub proof fn lemma_remove_twice_not_found(games: Seq<GameView>, id: Seq<char>)
    ensures
        first_with_id(without_id(games, id), id) is None,
{
    lemma_removed_is_gone(games, id);
    lemma_first_with_id(without_id(games, id), id);
    if let Some(i) = first_with_id(without_id(games, id), id) {
        assert(without_id(games, id)[i].id == id);
    }
}

} // verus!
