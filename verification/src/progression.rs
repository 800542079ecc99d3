//! The authoritative progression state machine: nested game, course and
//! hole phases, the current-hole record, and the set-equality rule for
//! hole completion.

use vstd::prelude::*;

use crate::geom::Vec3i;
use crate::lobby::PlayerId;
use crate::player::Player;
use crate::protocol::CourseId;
use vstd::seq_lib::*;

verus! {

/// The state of the current game, which consists of multiple courses.
#[derive(Debug, Clone, Copy, PartialEq, Eq, Structural)]
pub enum GamePhase {
    /// Waiting for all the players to connect.
    Waiting,
    Playing,
    /// All the courses of the game are completed.
    Completed,
}

/// The state of the current course, which consists of multiple holes.
#[derive(Debug, Clone, Copy, PartialEq, Eq, Structural)]
pub enum CoursePhase {
    /// Waiting for the course geometry to load.
    Waiting,
    Playing,
    /// All the holes of the course are completed.
    Completed,
}

/// The state of the current hole.
#[derive(Debug, Clone, Copy, PartialEq, Eq, Structural)]
pub enum HolePhase {
    Playing,
    /// All the active players have completed the hole.
    Completed,
}

/// Describes one course in the catalogue.
#[derive(Debug, Clone)]
pub struct CourseDetails {
    pub id: CourseId,
    pub name: String,
}

/// A reference to a course-geometry asset.
#[derive(Debug, Clone)]
pub struct LevelMesh {
    pub asset: String,
}

impl LevelMesh {
    pub fn from_path(path: &str) -> (r: Self)
        ensures
            r.asset@ == path@,
    {
        LevelMesh { asset: path.to_owned() }
    }
}

/// The ordered course roster of one running game, with a cursor on the
/// course being played. Immutable once the game starts.
pub struct GameConfig {
    courses: Vec<CourseId>,
    current: usize,
}

impl GameConfig {
    /// Which courses this game plays, in order.
    pub closed spec fn spec_courses(self) -> Seq<Seq<u8>> {
        self.courses@.map_values(|c: CourseId| c@)
    }

    /// The cursor: which course is being played.
    pub closed spec fn spec_current(self) -> int {
        self.current as int
    }

    /// The cursor always points at a course.
    pub open spec fn wf(self) -> bool {
        0 <= self.spec_current() < self.spec_courses().len()
    }

    /// A roster over the given courses, starting at the first. A game
    /// plays at least one course.
    pub fn new(courses: Vec<CourseId>) -> (r: Self)
        requires
            courses@.len() >= 1,
        ensures
            r.wf(),
            r.spec_courses().len() == courses@.len(),
            forall|i: int|
                0 <= i < courses@.len() ==> #[trigger] r.spec_courses()[i] == courses@[i]@,
            r.spec_current() == 0,
    {
        let r = GameConfig { courses, current: 0 };
        r
    }

    /// The id of the course being played.
    pub fn current(&self) -> (r: &CourseId)
        requires
            self.wf(),
        ensures
            r@ == self.spec_courses()[self.spec_current()],
    {
        &self.courses[self.current]
    }

    /// Moves the cursor to the next course, or reports that the roster is
    /// exhausted and stays put.
    pub fn next_course(&mut self) -> (r: Result<(), ()>)
        requires
            old(self).wf(),
        ensures
            final(self).wf(),
            final(self).spec_courses() == old(self).spec_courses(),
            old(self).spec_current() + 1 < old(self).spec_courses().len()
                ==> r is Ok && final(self).spec_current() == old(self).spec_current() + 1,
            old(self).spec_current() + 1 >= old(self).spec_courses().len()
                ==> r is Err && final(self).spec_current() == old(self).spec_current(),
    {
        if self.current >= self.courses.len() - 1 {
            Err(())
        } else {
            self.current = self.current + 1;
            Ok(())
        }
    }
}

/// The descriptor of one hole: where players tee off.
#[derive(Debug, Clone, Copy, PartialEq, Eq, Structural)]
pub struct Hole {
    pub start_position: Vec3i,
}

/// The single active hole of the active course: its descriptor, its
/// position in the course's ordered hole list, and the set of players that
/// have already finished it.
#[derive(Debug, Clone)]
pub struct CurrentHole {
    pub hole: Hole,
    pub hole_index: usize,
    pub players: Vec<PlayerId>,
}

/// Whether two member lists name the same set of players.
pub open spec fn set_eq(a: Seq<PlayerId>, b: Seq<PlayerId>) -> bool {
    a.to_set() == b.to_set()
}

/// Whether every element of `a` also stands in `b`.
pub open spec fn subset_of(a: Seq<PlayerId>, b: Seq<PlayerId>) -> bool {
    forall|p: PlayerId| a.contains(p) ==> b.contains(p)
}

/// Whether the list holds the player.
fn contains_player(v: &Vec<PlayerId>, player: PlayerId) -> (r: bool)
    ensures
        r == v@.contains(player),
{
    let mut i: usize = 0;
    while i < v.len()
        invariant
            i <= v@.len(),
            forall|k: int| 0 <= k < i ==> #[trigger] v@[k] != player,
        decreases v@.len() - i,
    {
        if v[i] == player {
            return true;
        }
        i = i + 1;
    }
    false
}

/// Whether every player of `a` stands in `b`.
fn all_contained(a: &Vec<PlayerId>, b: &Vec<PlayerId>) -> (r: bool)
    ensures
        r == subset_of(a@, b@),
{
    let mut i: usize = 0;
    while i < a.len()
        invariant
            i <= a@.len(),
            forall|k: int| 0 <= k < i ==> b@.contains(#[trigger] a@[k]),
        decreases a@.len() - i,
    {
        if !contains_player(b, a[i]) {
            proof {
                assert(a@.contains(a@[i as int]));
            }
            return false;
        }
        i = i + 1;
    }
    proof {
        assert forall|p: PlayerId| a@.contains(p) implies b@.contains(p) by {
            let k = choose|k: int| 0 <= k < a@.len() && a@[k] == p;
            assert(b@.contains(a@[k]));
        }
    }
    true
}

/// Whether the two lists name the same set of players.
fn player_sets_equal(a: &Vec<PlayerId>, b: &Vec<PlayerId>) -> (r: bool)
    ensures
        r == set_eq(a@, b@),
{
    let forward = all_contained(a, b);
    let backward = all_contained(b, a);
    let r = forward && backward;
    proof {
        if r {
            assert(a@.to_set() =~= b@.to_set());
        } else {
            if !subset_of(a@, b@) {
                let p = choose|p: PlayerId| a@.contains(p) && !b@.contains(p);
                assert(a@.to_set().contains(p));
                assert(!b@.to_set().contains(p));
            } else {
                let p = choose|p: PlayerId| b@.contains(p) && !a@.contains(p);
                assert(b@.to_set().contains(p));
                assert(!a@.to_set().contains(p));
            }
        }
    }
    r
}

/// Hole completion is set-equality based, not count based: when everyone
/// still active has finished the hole, the sets match after the leaver is
/// dropped from both — so a disconnect that shrinks the active set down to
/// the finishers completes the hole just as the last putt would have.
pub proof fn lemma_disconnect_completes_hole(
    active: Seq<PlayerId>,
    completed: Seq<PlayerId>,
    leaver: PlayerId,
)
    requires
        active.no_duplicates(),
        completed.no_duplicates(),
        subset_of(completed, active),
        forall|p: PlayerId| active.contains(p) && p != leaver ==> completed.contains(p),
    ensures
        set_eq(completed.remove_value(leaver), active.remove_value(leaver)),
{
    lemma_remove_value_contains(active, leaver);
    lemma_remove_value_contains(completed, leaver);
    assert(completed.remove_value(leaver).to_set() =~= active.remove_value(leaver).to_set()) by {
        assert forall|p: PlayerId| completed.remove_value(leaver).contains(p) implies active
            .remove_value(leaver).contains(p) by {
            lemma_remove_value_contains_other(completed, leaver, p);
            lemma_remove_value_contains_other(active, leaver, p);
        }
        assert forall|p: PlayerId| active.remove_value(leaver).contains(p) implies completed
            .remove_value(leaver).contains(p) by {
            lemma_remove_value_contains_other(active, leaver, p);
            lemma_remove_value_contains_other(completed, leaver, p);
        }
    }
}

/// After `remove_value(v)` on a duplicate-free list, `v` is gone.
proof fn lemma_remove_value_contains(s: Seq<PlayerId>, v: PlayerId)
    requires
        s.no_duplicates(),
    ensures
        !s.remove_value(v).contains(v),
        s.remove_value(v).no_duplicates(),
{
    s.index_of_first_ensures(v);
    if s.contains(v) {
        let i = s.index_of_first(v).unwrap();
        let s2 = s.remove(i);
        assert forall|k: int| 0 <= k < s2.len() implies #[trigger] s2[k] != v by {
            if k < i {
            } else {
                assert(s2[k] == s[k + 1]);
            }
        }
    }
}

/// `remove_value(v)` keeps every element other than `v`.
proof fn lemma_remove_value_contains_other(s: Seq<PlayerId>, v: PlayerId, p: PlayerId)
    requires
        p != v,
    ensures
        s.remove_value(v).contains(p) <==> s.contains(p),
{
    s.index_of_first_ensures(v);
    if s.contains(v) {
        let i = s.index_of_first(v).unwrap();
        let s2 = s.remove(i);
        if s.contains(p) {
            let k = choose|k: int| 0 <= k < s.len() && s[k] == p;
            if k < i {
                assert(s2[k] == p);
            } else if k > i {
                assert(s2[k - 1] == p);
            }
            assert(s2.contains(p));
        }
        if s2.contains(p) {
            let k = choose|k: int| 0 <= k < s2.len() && s2[k] == p;
            if k < i {
                assert(s[k] == p);
            } else {
                assert(s[k + 1] == p);
            }
            assert(s.contains(p));
        }
    }
}

/// What `advance_hole` decided.
#[derive(Debug, Clone, Copy, PartialEq, Eq, Structural)]
pub enum HoleAdvance {
    /// The next hole is up: every player's pose is to be reset to its
    /// start position, and hole-scoped effects are cleared.
    NextHole(Hole),
    /// There was no further hole: the course is completed.
    CourseCompleted,
}

/// What `advance_course` decided.
#[derive(Debug, Clone, Copy, PartialEq, Eq, Structural)]
pub enum CourseAdvance {
    /// The next course is to be loaded.
    NextCourse,
    /// The roster is exhausted: the game is completed.
    GameCompleted,
}

/// What a disconnect left behind.
#[derive(Debug, Clone, Copy, PartialEq, Eq, Structural)]
pub enum DisconnectOutcome {
    /// Play continues for the remaining players.
    Continue,
    /// The last active player left: the game is abandoned, its state
    /// discarded, and the process returns to the broker's pool.
    GameAbandoned,
}

/// The mathematical model of the active hole.
pub struct CurrentHoleModel {
    pub hole: Hole,
    pub index: int,
    pub completed: Seq<PlayerId>,
}

/// The mathematical model of the whole progression machine.
pub struct ProgressionModel {
    pub game: GamePhase,
    pub course: CoursePhase,
    pub hole: HolePhase,
    pub courses: Seq<Seq<u8>>,
    pub course_index: int,
    pub holes: Seq<Hole>,
    pub current_hole: Option<CurrentHoleModel>,
    pub active: Seq<PlayerId>,
}

/// Progression well-formedness: the course cursor points at a course, the
/// active set and the completed set are duplicate-free, every recorded
/// finisher is still active, the active hole agrees with the course's hole
/// list, and the nested phases cohere — an active hole exists exactly
/// while game and course are both in play.
pub open spec fn wf_progression(m: ProgressionModel) -> bool {
    &&& m.active.no_duplicates()
    &&& 0 <= m.course_index < m.courses.len()
    &&& (match m.current_hole {
        Option::Some(ch) => {
            &&& 0 <= ch.index < m.holes.len()
            &&& ch.hole == m.holes[ch.index]
            &&& ch.completed.no_duplicates()
            &&& subset_of(ch.completed, m.active)
        },
        Option::None => true,
    })
    &&& (m.current_hole is Some <==> (m.game is Playing && m.course is Playing))
    &&& (m.course is Playing ==> m.game is Playing)
    &&& (m.game is Waiting ==> m.course is Waiting && m.hole is Playing)
}

/// The progression state machine of one running game.
pub struct Progression {
    game: GamePhase,
    course: CoursePhase,
    hole: HolePhase,
    config: GameConfig,
    holes: Vec<Hole>,
    current_hole: Option<CurrentHole>,
    active: Vec<PlayerId>,
}

impl View for Progression {
    type V = ProgressionModel;

    closed spec fn view(&self) -> ProgressionModel {
        ProgressionModel {
            game: self.game,
            course: self.course,
            hole: self.hole,
            courses: self.config.spec_courses(),
            course_index: self.config.spec_current(),
            holes: self.holes@,
            current_hole: match self.current_hole {
                Option::Some(ch) => Some(
                    CurrentHoleModel {
                        hole: ch.hole,
                        index: ch.hole_index as int,
                        completed: ch.players@,
                    },
                ),
                Option::None => None,
            },
            active: self.active@,
        }
    }
}

impl Progression {
    /// A fresh machine for one assigned game: waiting for players, no
    /// course loaded, nobody active.
    pub fn new(config: GameConfig) -> (r: Self)
        requires
            config.wf(),
        ensures
            wf_progression(r@),
            r@.game is Waiting,
            r@.course is Waiting,
            r@.hole is Playing,
            r@.courses == config.spec_courses(),
            r@.course_index == config.spec_current(),
            r@.current_hole is None,
            r@.active == Seq::<PlayerId>::empty(),
    {
        let r = Progression {
            game: GamePhase::Waiting,
            course: CoursePhase::Waiting,
            hole: HolePhase::Playing,
            config,
            holes: Vec::new(),
            current_hole: None,
            active: Vec::new(),
        };
        proof {
            assert(r@.active =~= Seq::<PlayerId>::empty());
        }
        r
    }

    /// The current game phase.
    pub fn game_phase(&self) -> (r: GamePhase)
        ensures
            r == self@.game,
    {
        self.game
    }

    /// The current course phase.
    pub fn course_phase(&self) -> (r: CoursePhase)
        ensures
            r == self@.course,
    {
        self.course
    }

    /// The current hole phase.
    pub fn hole_phase(&self) -> (r: HolePhase)
        ensures
            r == self@.hole,
    {
        self.hole
    }

    /// Where players tee off on the active hole, if one is loaded.
    pub fn current_start_position(&self) -> (r: Option<Vec3i>)
        ensures
            match self@.current_hole {
                Option::Some(ch) => r == Some(ch.hole.start_position),
                Option::None => r is None,
            },
    {
        match &self.current_hole {
            Some(ch) => Some(ch.hole.start_position),
            None => None,
        }
    }

    /// How many players are still active.
    pub fn active_count(&self) -> (r: usize)
        ensures
            r == self@.active.len(),
    {
        self.active.len()
    }

    /// Fires the game's start: the moment the authenticated players are
    /// all in, they become the active set and the game begins to play,
    /// with the first course waiting to load.
    pub fn begin_playing(&mut self, players: Vec<PlayerId>)
        requires
            wf_progression(old(self)@),
            old(self)@.game is Waiting,
            players@.no_duplicates(),
            players@.len() >= 1,
        ensures
            wf_progression(final(self)@),
            final(self)@ == (ProgressionModel {
                game: GamePhase::Playing,
                active: players@,
                ..old(self)@
            }),
    {
        self.game = GamePhase::Playing;
        self.active = players;
    }

    /// Loads a course: its ordered hole list is instantiated and the first
    /// hole becomes the active one, with no finisher yet. The physics
    /// clock is to be paused while geometry is instantiated and resumed on
    /// this transition.
    pub fn load_course(&mut self, holes: Vec<Hole>)
        requires
            wf_progression(old(self)@),
            old(self)@.game is Playing,
            old(self)@.course is Waiting,
            holes@.len() >= 1,
        ensures
            wf_progression(final(self)@),
            final(self)@ == (ProgressionModel {
                course: CoursePhase::Playing,
                hole: HolePhase::Playing,
                holes: holes@,
                current_hole: Some(
                    CurrentHoleModel {
                        hole: holes@[0],
                        index: 0,
                        completed: Seq::<PlayerId>::empty(),
                    },
                ),
                ..old(self)@
            }),
    {
        let first = holes[0];
        self.course = CoursePhase::Playing;
        self.hole = HolePhase::Playing;
        self.current_hole = Some(CurrentHole { hole: first, hole_index: 0, players: Vec::new() });
        self.holes = holes;
        proof {
            assert(self@.current_hole.unwrap().completed =~= Seq::<PlayerId>::empty());
        }
    }

    /// Records that a player's ball settled in the hole sensor: an
    /// edge-triggered fact, recorded once per player per hole, and only
    /// for players still active. Returns whether anything was recorded.
    pub fn record_hole_completion(&mut self, player: PlayerId) -> (r: bool)
        requires
            wf_progression(old(self)@),
            old(self)@.game is Playing,
            old(self)@.course is Playing,
        ensures
            wf_progression(final(self)@),
            ({
                let ch = old(self)@.current_hole.unwrap();
                let newly = old(self)@.active.contains(player) && !ch.completed.contains(player);
                &&& r == newly
                &&& newly ==> final(self)@ == (ProgressionModel {
                    current_hole: Some(
                        CurrentHoleModel { completed: ch.completed.push(player), ..ch },
                    ),
                    ..old(self)@
                })
                &&& !newly ==> final(self)@ == old(self)@
            }),
    {
        if !contains_player(&self.active, player) {
            return false;
        }
        let taken = self.current_hole.take();
        let mut ch = match taken {
            Some(ch) => ch,
            None => {
                proof {
                    assert(false);
                }
                CurrentHole {
                    hole: Hole { start_position: Vec3i { x: 0, y: 0, z: 0 } },
                    hole_index: 0,
                    players: Vec::new(),
                }
            },
        };
        let newly = !contains_player(&ch.players, player);
        if newly {
            ch.players.push(player);
        }
        self.current_hole = Some(ch);
        newly
    }

    /// The set-equality completion check, run each tick after the
    /// simulation reported its settlements: the hole completes the instant
    /// the finishers are exactly the active players — however that state
    /// was reached, by a last putt or by a disconnect. Returns whether the
    /// hole completed.
    pub fn check_hole_completion(&mut self) -> (r: bool)
        requires
            wf_progression(old(self)@),
            old(self)@.game is Playing,
            old(self)@.course is Playing,
            old(self)@.hole is Playing,
        ensures
            wf_progression(final(self)@),
            r == set_eq(old(self)@.current_hole.unwrap().completed, old(self)@.active),
            r ==> final(self)@ == (ProgressionModel { hole: HolePhase::Completed, ..old(self)@ }),
            !r ==> final(self)@ == old(self)@,
    {
        let equal = match &self.current_hole {
            Some(ch) => player_sets_equal(&ch.players, &self.active),
            None => {
                proof {
                    assert(false);
                }
                false
            },
        };
        if equal {
            self.hole = HolePhase::Completed;
        }
        equal
    }

    /// Leaves a completed hole behind: hole-scoped effects are cleared and
    /// either the next hole of the course becomes active — every player
    /// reset to its start pose — or, with no hole left, the course
    /// completes and the active-hole record is destroyed.
    pub fn advance_hole(&mut self) -> (r: HoleAdvance)
        requires
            wf_progression(old(self)@),
            old(self)@.course is Playing,
            old(self)@.hole is Completed,
        ensures
            wf_progression(final(self)@),
            ({
                let ch = old(self)@.current_hole.unwrap();
                &&& ch.index + 1 < old(self)@.holes.len() ==> r == HoleAdvance::NextHole(
                    old(self)@.holes[ch.index + 1],
                ) && final(self)@ == (ProgressionModel {
                    hole: HolePhase::Playing,
                    current_hole: Some(
                        CurrentHoleModel {
                            hole: old(self)@.holes[ch.index + 1],
                            index: ch.index + 1,
                            completed: Seq::<PlayerId>::empty(),
                        },
                    ),
                    ..old(self)@
                })
                &&& ch.index + 1 >= old(self)@.holes.len() ==> r == HoleAdvance::CourseCompleted
                    && final(self)@ == (ProgressionModel {
                    course: CoursePhase::Completed,
                    current_hole: None,
                    ..old(self)@
                })
            }),
    {
        let taken = self.current_hole.take();
        let ch = match taken {
            Some(ch) => ch,
            None => {
                proof {
                    assert(false);
                }
                CurrentHole {
                    hole: Hole { start_position: Vec3i { x: 0, y: 0, z: 0 } },
                    hole_index: 0,
                    players: Vec::new(),
                }
            },
        };
        proof {
            assert(old(self).current_hole == Some(ch));
            assert(old(self)@.current_hole.unwrap().index == ch.hole_index as int);
            assert(ch.hole_index < self.holes.len());
        }
        let next_index = ch.hole_index + 1;
        if next_index < self.holes.len() {
            let next = self.holes[next_index];
            self.hole = HolePhase::Playing;
            self.current_hole = Some(
                CurrentHole { hole: next, hole_index: next_index, players: Vec::new() },
            );
            proof {
                assert(self@.current_hole.unwrap().completed =~= Seq::<PlayerId>::empty());
            }
            HoleAdvance::NextHole(next)
        } else {
            self.course = CoursePhase::Completed;
            self.current_hole = None;
            HoleAdvance::CourseCompleted
        }
    }

    /// Leaves a completed course behind: either the next course of the
    /// roster is up — to be loaded while the machine waits — or the
    /// roster is exhausted and the game completes.
    pub fn advance_course(&mut self) -> (r: CourseAdvance)
        requires
            wf_progression(old(self)@),
            old(self)@.game is Playing,
            old(self)@.course is Completed,
        ensures
            wf_progression(final(self)@),
            old(self)@.course_index + 1 < old(self)@.courses.len() ==> r
                == CourseAdvance::NextCourse && final(self)@ == (ProgressionModel {
                course: CoursePhase::Waiting,
                hole: HolePhase::Playing,
                course_index: old(self)@.course_index + 1,
                ..old(self)@
            }),
            old(self)@.course_index + 1 >= old(self)@.courses.len() ==> r
                == CourseAdvance::GameCompleted && final(self)@ == (ProgressionModel {
                game: GamePhase::Completed,
                ..old(self)@
            }),
    {
        let advanced = self.config.next_course();
        match advanced {
            Ok(()) => {
                self.course = CoursePhase::Waiting;
                self.hole = HolePhase::Playing;
                CourseAdvance::NextCourse
            },
            Err(()) => {
                self.game = GamePhase::Completed;
                CourseAdvance::GameCompleted
            },
        }
    }

    /// Removes a disconnected player from the active set — and from the
    /// finisher set, which only ever names active players. No effect may
    /// reference the player afterwards. When the last active player
    /// leaves, the game is abandoned.
    pub fn player_disconnected(&mut self, player: PlayerId) -> (r: DisconnectOutcome)
        requires
            wf_progression(old(self)@),
        ensures
            wf_progression(final(self)@),
            final(self)@ == (ProgressionModel {
                active: old(self)@.active.remove_value(player),
                current_hole: match old(self)@.current_hole {
                    Option::Some(ch) => Some(
                        CurrentHoleModel {
                            completed: ch.completed.remove_value(player),
                            ..ch
                        },
                    ),
                    Option::None => None,
                },
                ..old(self)@
            }),
            r == DisconnectOutcome::GameAbandoned <==> final(self)@.active.len() == 0,
    {
        let ghost pre = self@;
        remove_player(&mut self.active, player);
        proof {
            lemma_remove_value_contains(pre.active, player);
        }
        let taken = self.current_hole.take();
        match taken {
            Some(mut ch) => {
                proof {
                    lemma_remove_value_contains(pre.current_hole.unwrap().completed, player);
                }
                remove_player(&mut ch.players, player);
                self.current_hole = Some(ch);
            },
            None => {},
        }
        proof {
            assert forall|p: PlayerId|
                self@.current_hole is Some && self@.current_hole.unwrap().completed.contains(p)
                implies self@.active.contains(p) by {
                let ch = pre.current_hole.unwrap();
                lemma_remove_value_contains_other(ch.completed, player, p);
                lemma_remove_value_contains_other(pre.active, player, p);
            }
        }
        if self.active.len() == 0 {
            DisconnectOutcome::GameAbandoned
        } else {
            DisconnectOutcome::Continue
        }
    }
}

impl Progression {
    /// Handles the physics collaborator's report that a player's ball has
    /// settled — the only source of hole completion, never client input.
    ///
    /// A ball settling inside the hole sensor means the player finished
    /// the hole: the fact is recorded once, and the player may not move
    /// again this hole. A ball settling anywhere else returns the turn to
    /// the player and becomes its last stable position, the pose restored
    /// after a fall out of bounds. Returns whether a completion was newly
    /// recorded.
    pub fn on_ball_settled(
        &mut self,
        player: &mut Player,
        last_position: &mut Vec3i,
        settled_at: Vec3i,
        in_hole_sensor: bool,
    ) -> (r: bool)
        requires
            wf_progression(old(self)@),
            old(self)@.game is Playing,
            old(self)@.course is Playing,
        ensures
            wf_progression(final(self)@),
            final(player).id == old(player).id,
            final(player).can_move == !in_hole_sensor,
            !in_hole_sensor ==> final(self)@ == old(self)@ && *final(last_position) == settled_at
                && r == false,
            in_hole_sensor ==> {
                let ch = old(self)@.current_hole.unwrap();
                let newly = old(self)@.active.contains(old(player).id) && !ch.completed.contains(
                    old(player).id,
                );
                &&& *final(last_position) == *old(last_position)
                &&& r == newly
                &&& newly ==> final(self)@ == (ProgressionModel {
                    current_hole: Some(
                        CurrentHoleModel {
                            completed: ch.completed.push(old(player).id),
                            ..ch
                        },
                    ),
                    ..old(self)@
                })
                &&& !newly ==> final(self)@ == old(self)@
            },
    {
        player.set_can_move(!in_hole_sensor);
        if in_hole_sensor {
            self.record_hole_completion(player.id)
        } else {
            *last_position = settled_at;
            false
        }
    }
}

/// Removes the player's first occurrence from the list, if present.
fn remove_player(v: &mut Vec<PlayerId>, player: PlayerId)
    ensures
        final(v)@ == old(v)@.remove_value(player),
{
    let mut i: usize = 0;
    while i < v.len()
        invariant
            v@ == old(v)@,
            i <= v@.len(),
            forall|k: int| 0 <= k < i ==> #[trigger] v@[k] != player,
        decreases v@.len() - i,
    {
        if v[i] == player {
            proof {
                v@.index_of_first_ensures(player);
            }
            v.remove(i);
            return ;
        }
        i = i + 1;
    }
    proof {
        assert(!old(v)@.contains(player));
        old(v)@.index_of_first_ensures(player);
    }
}

} // verus!
