//! One exploration session: the state of the client and how it reacts to
//! what the server sends.
//!
//! The session does no input or output. Its caller hands it each event of
//! the server and carries out the reply: it sends the move, waits, or ends
//! the session. A move is carried out on the player as soon as it is
//! decided; when the server rejects it, the player is put back as it was.

use vstd::prelude::*;
use vstd::string::*;
use vstd::utf8::*;
use crate::cell::Cell;
use crate::direction::{same_text, Direction, RelativeMove};
use crate::map::{after_radar, conflicts_in, lemma_map_refines_transitive, map_refines, MazeMap};
use crate::navigator::{is_open, next_mode, ExplorationDeadEnd, Navigator};
use crate::player::{Player, PlayerState};
use crate::radarview::{
    parse_radar_view, radar_groups, CellNature, DecodeError, PrettyRadarView,
};

verus! {

/// What the server sent, as far as the session is concerned.
#[derive(Debug)]
pub enum ServerEvent {
    /// A radar text.
    RadarView(String),
    /// The server refused the last action, for the reason given.
    ActionError(String),
    /// Anything else: a challenge, a hint, a message of the registration.
    Other,
}

/// What the caller has to do after an event.
#[derive(Debug, Clone, Copy, PartialEq, Eq, Structural)]
pub enum Reply {
    /// Nothing: wait for the next event.
    Wait,
    /// Nothing: the radar text could not be decoded and was dropped.
    Unreadable(DecodeError),
    /// Send this move.
    MoveTo(RelativeMove),
    /// The player stands on the goal: the session is over.
    GoalReached,
    /// The player is enclosed and has no way to retrace: the session cannot
    /// go on.
    DeadEnd,
    /// The server refused an action for a reason the session cannot
    /// recover from.
    Aborted,
    /// The event is none of the session's.
    Unhandled,
}

/// The state of one player's exploration.
#[derive(Debug)]
pub struct Session {
    pub map: MazeMap,
    pub player: Player,
    pub navigator: Navigator,
    /// The snapshot that was merged into the map last.
    pub view: PrettyRadarView,
    /// The player as it was before the last move was decided.
    pub before_move: Player,
    /// Whether a move was sent that the server may still reject.
    pub in_flight: bool,
    /// How many wall readings of the last snapshot contradicted the map
    /// before they were merged into it.
    pub conflicts: usize,
}

/// The reason the server gives for a move into a wall.
pub open spec fn wall_in_the_way() -> Seq<char> {
    "CannotPassThroughWall"@
}

impl Navigator {
    /// The player once the navigator has decided on `m` and recorded it.
    pub open spec fn recorded(
        self,
        cells: Map<(int, int), Cell>,
        before: PlayerState,
        view: &PrettyRadarView,
        m: RelativeMove,
    ) -> PlayerState {
        crate::navigator::after_choice(
            before,
            !self.seeks(cells, before) && crate::navigator::retraces(cells, before, view),
            m,
        )
    }
}

/// Whether `reply` and `after` are what deciding a move for the player
/// `before` and carrying it out may give: either a move that the navigator
/// may decide on, recorded and carried out on the player, or a dead end that
/// leaves the player as it is.
pub open spec fn moves_on(
    nav: Navigator,
    cells: Map<(int, int), Cell>,
    view: &PrettyRadarView,
    before: PlayerState,
    reply: Reply,
    after: PlayerState,
    in_flight: bool,
) -> bool {
    match reply {
        Reply::MoveTo(m) => {
            &&& nav.decides(
                cells,
                before,
                view,
                Ok::<RelativeMove, ExplorationDeadEnd>(m),
                nav.recorded(cells, before, view, m),
            )
            &&& after == nav.recorded(cells, before, view, m).advanced(m.name())
            &&& in_flight
            &&& nav.keeps_to_open_walls(cells, before, view) ==> is_open(view, m)
        },
        Reply::DeadEnd => {
            &&& nav.decides(
                cells,
                before,
                view,
                Err::<RelativeMove, ExplorationDeadEnd>(ExplorationDeadEnd),
                before,
            )
            &&& after == before
            &&& !in_flight
        },
        _ => false,
    }
}

impl Session {
    /// A session at its start: an empty map, the player on `(0, 0)` facing
    /// North, a navigator that explores, and no snapshot.
    pub fn new() -> (r: Self)
        ensures
            r.map@ == Map::<(int, int), Cell>::empty(),
            r.player@ == PlayerState::start(0, 0, Direction::North),
            r.before_move@ == r.player@,
            r.navigator.mode == crate::navigator::NavigatorMode::Exploring,
            r.navigator.hint is None,
            r.view.is_blank(),
            !r.in_flight,
            r.conflicts == 0,
    {
        Session {
            map: MazeMap::new(),
            player: Player::new(0, 0, Direction::North),
            navigator: Navigator::new(),
            view: PrettyRadarView {
                horizontal_walls: Vec::new(),
                vertical_walls: Vec::new(),
                cells: Vec::new(),
                current_cell: 4,
            },
            before_move: Player::new(0, 0, Direction::North),
            in_flight: false,
            conflicts: 0,
        }
    }

    /// Whether the player can take a step without leaving the range of the
    /// coordinates, as every event but an error requires.
    pub fn can_go_on(&self) -> (r: bool)
        ensures
            r == self.player@.can_step(),
    {
        i32::MIN < self.player.x && self.player.x < i32::MAX && i32::MIN < self.player.y
            && self.player.y < i32::MAX
    }

    /// Decides the next move from the last snapshot and carries it out.
    fn move_on(&mut self) -> (reply: Reply)
        requires
            old(self).player@.can_step(),
        ensures
            final(self).map@ == old(self).map@,
            final(self).navigator == old(self).navigator,
            final(self).view == old(self).view,
            final(self).conflicts == old(self).conflicts,
            final(self).before_move@ == old(self).player@,
            moves_on(
                old(self).navigator,
                old(self).map@,
                &old(self).view,
                old(self).player@,
                reply,
                final(self).player@,
                final(self).in_flight,
            ),
    {
        self.before_move = self.player.clone();
        match self.navigator.decide_next_move(&self.map, &mut self.player, &self.view) {
            Ok(m) => {
                self.map.update_player(&mut self.player, m.as_str());
                self.in_flight = true;
                Reply::MoveTo(m)
            },
            Err(_) => {
                self.in_flight = false;
                Reply::DeadEnd
            },
        }
    }

    /// Whether `reply` and the session `after` are what a radar text may
    /// lead to in the session `before`.
    ///
    /// A text that cannot be decoded is dropped and nothing changes.
    /// Otherwise the wall readings that contradict the map are counted and
    /// the snapshot is merged into the map. If it shows the player
    /// on the goal, the session is over. If not, the navigator looks at the
    /// snapshot, and the next move is decided and carried out.
    pub open spec fn radar_outcome(before: Session, text: Seq<char>, reply: Reply, after: Session) -> bool {
        match radar_groups(encode_utf8(text)) {
            Err(e) => reply == Reply::Unreadable(e) && after == before,
            Ok(g) => {
                &&& after.view.shows(g)
                &&& after.view.is_complete()
                &&& after.map@ == after_radar(
                    before.map@,
                    &after.view,
                    before.player@.x,
                    before.player@.y,
                    before.player@.direction,
                )
                &&& after.conflicts == conflicts_in(
                    before.map@,
                    &after.view,
                    before.player@.x,
                    before.player@.y,
                    before.player@.direction,
                )
                &&& if after.view.cells@[4].nature == CellNature::Goal {
                    &&& reply == Reply::GoalReached
                    &&& after.player@ == before.player@
                    &&& after.navigator == before.navigator
                    &&& after.before_move@ == before.before_move@
                    &&& !after.in_flight
                } else {
                    &&& after.navigator.mode == next_mode(
                        before.navigator.mode,
                        &after.view,
                        before.player@,
                    )
                    &&& after.navigator.hint == before.navigator.hint
                    &&& after.before_move@ == before.player@
                    &&& moves_on(
                        after.navigator,
                        after.map@,
                        &after.view,
                        before.player@,
                        reply,
                        after.player@,
                        after.in_flight,
                    )
                }
            },
        }
    }

    /// Whether `reply` and the session `after` are what the server's refusal
    /// of the last action leads to in the session `before`.
    ///
    /// A move into a wall is undone: the player is put back as it was before
    /// the move was decided. Any other refusal ends the session and changes
    /// nothing.
    pub open spec fn error_outcome(before: Session, error: Seq<char>, reply: Reply, after: Session) -> bool {
        &&& after.map@ == before.map@
        &&& after.navigator == before.navigator
        &&& after.view == before.view
        &&& after.conflicts == before.conflicts
        &&& after.before_move@ == before.before_move@
        &&& if error == wall_in_the_way() {
            &&& reply == Reply::Wait
            &&& !after.in_flight
            &&& after.player@ == if before.in_flight {
                before.before_move@
            } else {
                before.player@
            }
        } else {
            &&& reply == Reply::Aborted
            &&& after.player@ == before.player@
            &&& after.in_flight == before.in_flight
        }
    }

    /// Takes in a radar text: see `radar_outcome`. Whatever the text, the
    /// map keeps what it knew.
    pub fn on_radar_view(&mut self, radar_str: &str) -> (reply: Reply)
        requires
            old(self).player@.can_step(),
        ensures
            Session::radar_outcome(*old(self), radar_str@, reply, *final(self)),
            map_refines(old(self).map@, final(self).map@),
    {
        proof {
            lemma_map_refines_transitive(old(self).map@, old(self).map@, old(self).map@);
        }
        let view = match parse_radar_view(radar_str) {
            Ok(view) => view,
            Err(e) => {
                return Reply::Unreadable(e);
            },
        };
        self.conflicts = self.map.count_conflicts(&view, &self.player);
        self.map.update_from_radar(&view, &mut self.player);
        if view.cells[4].nature == CellNature::Goal {
            self.view = view;
            self.in_flight = false;
            return Reply::GoalReached;
        }
        self.navigator.observe(&view, &self.player);
        self.view = view;
        self.move_on()
    }

    /// Takes in the server's refusal of the last action: see
    /// `error_outcome`. After a move into a wall the caller waits for the
    /// next event, or decides again with `retry`.
    pub fn on_action_error(&mut self, error: &str) -> (reply: Reply)
        ensures
            Session::error_outcome(*old(self), error@, reply, *final(self)),
    {
        if same_text(error, "CannotPassThroughWall") {
            if self.in_flight {
                self.player = self.before_move.clone();
                self.in_flight = false;
            }
            Reply::Wait
        } else {
            Reply::Aborted
        }
    }

    /// Decides again from the last snapshot, after a move was rejected.
    pub fn retry(&mut self) -> (reply: Reply)
        requires
            old(self).player@.can_step(),
        ensures
            final(self).map@ == old(self).map@,
            final(self).navigator == old(self).navigator,
            final(self).view == old(self).view,
            final(self).conflicts == old(self).conflicts,
            final(self).before_move@ == old(self).player@,
            moves_on(
                old(self).navigator,
                old(self).map@,
                &old(self).view,
                old(self).player@,
                reply,
                final(self).player@,
                final(self).in_flight,
            ),
    {
        self.move_on()
    }

    /// Reacts to an event of the server. Whatever the event, the map keeps
    /// what it knew.
    pub fn handle(&mut self, event: &ServerEvent) -> (reply: Reply)
        requires
            event is RadarView ==> old(self).player@.can_step(),
        ensures
            match *event {
                ServerEvent::RadarView(text) => Session::radar_outcome(
                    *old(self),
                    text@,
                    reply,
                    *final(self),
                ),
                ServerEvent::ActionError(error) => Session::error_outcome(
                    *old(self),
                    error@,
                    reply,
                    *final(self),
                ),
                ServerEvent::Other => reply == Reply::Unhandled && *final(self) == *old(self),
            },
            map_refines(old(self).map@, final(self).map@),
    {
        proof {
            lemma_map_refines_transitive(old(self).map@, old(self).map@, old(self).map@);
        }
        match event {
            ServerEvent::RadarView(radar_str) => self.on_radar_view(radar_str.as_str()),
            ServerEvent::ActionError(error) => self.on_action_error(error.as_str()),
            ServerEvent::Other => Reply::Unhandled,
        }
    }
}

} // verus!
