//! The editor's state machine: idle, configuring the pool, generating a
//! race, or tweaking one. Transitions are user-driven; the session owns
//! the persisted pool and the current race.

use vstd::prelude::*;
use crate::gen::{generate, generated_from, GenError, RaceGenParams};
use crate::geom::{point_ok, pool_wf, Point};
use crate::pool::{clone_points, find_point_near, within_radius};
use crate::race::Race;
use crate::rng::RaceRng;

verus! {

/// What the race panel is doing: editing generation parameters, or
/// tweaking the generated race.
pub enum RaceMode {
    Gen(RaceGenParams),
    Tweak,
}

/// The race panel: its mode, and whether its editing controls are
/// collapsed.
pub struct RacePanel {
    pub mode: RaceMode,
    pub controls_collapsed: bool,
}

/// The editor's top-level state. In `Config` the payload is a working
/// copy of the pool, edited independently until saved.
pub enum EditorState {
    Idle,
    Config(Vec<Point>),
    Race(RacePanel),
}

/// One editing session: the current state, the persisted pool, and the
/// most recently generated race, if any.
pub struct Session {
    pub state: EditorState,
    pub pool: Vec<Point>,
    pub race: Option<Race>,
}

/// Fresh generation parameters, as the panel first shows them.
pub open spec fn default_params(g: RaceGenParams) -> bool {
    &&& g.length == 0
    &&& g.n_side == 0
    &&& g.classes@.len() == 10
    &&& forall|i: int| 0 <= i < 10 ==> #[trigger] g.classes@[i]@ == Seq::<char>::empty()
}

impl Session {
    /// A fresh session starts idle, with no race.
    pub fn new(pool: Vec<Point>) -> (r: Session)
        ensures
            r.state is Idle,
            r.pool == pool,
            r.race is None,
    {
        Session { state: EditorState::Idle, pool, race: None }
    }

    /// Idle → Config: load a working copy of the pool for editing.
    pub fn open_config(&mut self)
        requires
            old(self).state is Idle,
        ensures
            final(self).state matches EditorState::Config(w) && w@ == old(self).pool@,
            final(self).pool == old(self).pool,
            final(self).race == old(self).race,
    {
        let w = clone_points(&self.pool);
        self.state = EditorState::Config(w);
    }

    /// Idle → Race.Gen with fresh default parameters.
    pub fn open_race_gen(&mut self)
        requires
            old(self).state is Idle,
        ensures
            final(self).state matches EditorState::Race(p) && p.mode matches RaceMode::Gen(g)
                && default_params(g) && !p.controls_collapsed,
            final(self).pool == old(self).pool,
            final(self).race == old(self).race,
    {
        self.state = EditorState::Race(
            RacePanel { mode: RaceMode::Gen(RaceGenParams::default()), controls_collapsed: false },
        );
    }

    /// Config → Idle, discarding the working copy.
    pub fn config_back(&mut self)
        requires
            old(self).state is Config,
        ensures
            final(self).state is Idle,
            final(self).pool == old(self).pool,
            final(self).race == old(self).race,
    {
        self.state = EditorState::Idle;
    }

    /// Commit the working copy to the session's pool, staying in Config;
    /// persisting the pool to disk is its caller's separate step.
    pub fn config_save(&mut self)
        requires
            old(self).state is Config,
        ensures
            final(self).state == old(self).state,
            final(self).pool@ == old(self).state->Config_0@,
            final(self).race == old(self).race,
    {
        let w = match &self.state {
            EditorState::Config(w) => clone_points(w),
            _ => {
                proof {
                    assert(false);
                }
                Vec::new()
            },
        };
        self.pool = w;
    }

    /// Race.Gen → Race.Tweak, once a race exists.
    pub fn start_tweak(&mut self)
        requires
            old(self).state matches EditorState::Race(p) && p.mode is Gen,
            old(self).race is Some,
        ensures
            final(self).state matches EditorState::Race(p) && p.mode is Tweak
                && !p.controls_collapsed,
            final(self).pool == old(self).pool,
            final(self).race == old(self).race,
    {
        self.state = EditorState::Race(
            RacePanel { mode: RaceMode::Tweak, controls_collapsed: false },
        );
    }

    /// Race.Tweak → Race.Gen with fresh default parameters; the race value
    /// stays in memory, merely no longer shown for editing.
    pub fn tweak_back(&mut self)
        requires
            old(self).state matches EditorState::Race(p) && p.mode is Tweak,
        ensures
            final(self).state matches EditorState::Race(p) && p.mode matches RaceMode::Gen(g)
                && default_params(g) && !p.controls_collapsed,
            final(self).pool == old(self).pool,
            final(self).race == old(self).race,
    {
        self.state = EditorState::Race(
            RacePanel { mode: RaceMode::Gen(RaceGenParams::default()), controls_collapsed: false },
        );
    }

    /// Flip the collapsed flag of the race panel's editing controls; no
    /// effect in any other state.
    pub fn toggle_edit_controls(&mut self)
        ensures
            old(self).state matches EditorState::Race(p) ==> final(self).state matches
                EditorState::Race(q) && q.mode == p.mode && q.controls_collapsed
                == !p.controls_collapsed,
            !(old(self).state is Race) ==> *final(self) == *old(self),
            final(self).pool == old(self).pool,
            final(self).race == old(self).race,
    {
        match &mut self.state {
            EditorState::Race(panel) => {
                panel.controls_collapsed = !panel.controls_collapsed;
            },
            _ => {},
        }
    }

    /// Generate a race from the panel's parameters against the session
    /// pool and store it; rejected parameters leave everything unchanged.
    pub fn generate_race(&mut self, rng: &mut RaceRng) -> (r: Result<(), GenError>)
        requires
            old(self).state matches EditorState::Race(p) && p.mode is Gen,
        ensures
            final(self).state == old(self).state,
            final(self).pool == old(self).pool,
            r is Err <==> !(old(self).state->Race_0.mode->Gen_0).valid_for(old(self).pool@),
            r is Err ==> final(self).race == old(self).race,
            r is Ok ==> (final(self).race matches Some(race) && generated_from(
                race,
                old(self).pool@,
                old(self).state->Race_0.mode->Gen_0,
            )),
    {
        let result = match &self.state {
            EditorState::Race(panel) => match &panel.mode {
                RaceMode::Gen(g) => generate(&self.pool, g, rng),
                RaceMode::Tweak => {
                    proof {
                        assert(false);
                    }
                    Err(GenError::InvalidParameters)
                },
            },
            _ => {
                proof {
                    assert(false);
                }
                Err(GenError::InvalidParameters)
            },
        };
        match result {
            Ok(race) => {
                self.race = Some(race);
                Ok(())
            },
            Err(e) => Err(e),
        }
    }

    /// In Config mode, whether a primary click lands on the displayed map
    /// rather than on the floating panel anchored to the top right.
    pub fn click_targets_map(
        mouse_x: i64,
        mouse_y: i64,
        screen_w: i64,
        panel_w: i64,
        panel_h: i64,
        map_w: i64,
    ) -> (r: bool)
        requires
            -1_000_000_000 <= mouse_x <= 1_000_000_000,
            -1_000_000_000 <= mouse_y <= 1_000_000_000,
            -1_000_000_000 <= screen_w <= 1_000_000_000,
            -1_000_000_000 <= panel_w <= 1_000_000_000,
            -1_000_000_000 <= panel_h <= 1_000_000_000,
            -1_000_000_000 <= map_w <= 1_000_000_000,
        ensures
            r == (!(mouse_x > screen_w - panel_w && mouse_y < panel_h) && mouse_x < map_w),
    {
        !(mouse_x > screen_w - panel_w && mouse_y < panel_h) && mouse_x < map_w
    }

    /// Config: a primary click on the map appends the clicked location to
    /// the working copy.
    pub fn config_add_point(&mut self, p: Point)
        requires
            old(self).state is Config,
            point_ok(p),
        ensures
            final(self).state matches EditorState::Config(w) && w@ == old(
                self,
            ).state->Config_0@.push(p),
            final(self).pool == old(self).pool,
            final(self).race == old(self).race,
    {
        match &mut self.state {
            EditorState::Config(w) => {
                w.push(p);
            },
            _ => {
                proof {
                    assert(false);
                }
            },
        }
    }

    /// Config: a secondary click deletes the first working-copy point
    /// within the click radius of `pos`, and no other; with none in
    /// radius, nothing changes.
    pub fn config_remove_near(&mut self, pos: Point, radius_sq: i64) -> (r: Option<usize>)
        requires
            old(self).state is Config,
            pool_wf(old(self).state->Config_0@),
            point_ok(pos),
        ensures
            final(self).pool == old(self).pool,
            final(self).race == old(self).race,
            r matches Some(i) ==> {
                &&& i < old(self).state->Config_0@.len()
                &&& within_radius(old(self).state->Config_0@[i as int], pos, radius_sq as int)
                &&& forall|j: int|
                    0 <= j < i ==> !within_radius(
                        #[trigger] old(self).state->Config_0@[j],
                        pos,
                        radius_sq as int,
                    )
                &&& final(self).state matches EditorState::Config(w) && w@ == old(
                    self,
                ).state->Config_0@.remove(i as int)
            },
            r is None ==> *final(self) == *old(self) && forall|j: int|
                0 <= j < old(self).state->Config_0@.len() ==> !within_radius(
                    #[trigger] old(self).state->Config_0@[j],
                    pos,
                    radius_sq as int,
                ),
    {
        match &mut self.state {
            EditorState::Config(w) => {
                match find_point_near(w, pos, radius_sq) {
                    Some(i) => {
                        w.remove(i);
                        Some(i)
                    },
                    None => None,
                }
            },
            _ => {
                proof {
                    assert(false);
                }
                None
            },
        }
    }
}

} // verus!
