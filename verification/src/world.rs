//! The world/AOI engine: single-writer owner of the spatial grid and the
//! player registry. It consumes one command at a time, keeps every player in
//! exactly the cell derived from its position, and fans each event out only
//! to the sessions whose AOI view covers the cell concerned. A failed send
//! never aborts a fan-out: the broken target is removed after the loop.

use vstd::prelude::*;
use crate::cell::{CellId, CellRect, WorldConfig, spec_cell_of, spec_aoi_rect, aoi_rect,
    calculate_grid_id, in_bounds, in_radius, lemma_aoi_symmetry};
use crate::message::{State, PlayerState, Message, PresenceEntry, PlayerSender, PlayerLoginData,
    PlayerMessage, PlayerMessageWrap, KickOutReason, WorldMessage, WorldMessageWrap,
    copy_presence};
use crate::vecmap::{VecMap, CellMap};
use crate::channel::channel_send;

verus! {

/// One cell's bucket: the players physically located in that cell, each with
/// its authoritative record.
pub struct Grid {
    pub players: VecMap<State>,
}

impl Grid {
    pub fn new() -> (g: Grid)
        ensures
            g.players.wf(),
            g.players@ == Map::<i32, State>::empty(),
    {
        Grid { players: VecMap::new() }
    }
}

/// The record of one attempted event delivery: which session it was for and
/// whether its queue accepted it.
#[derive(Clone, Copy, PartialEq, Eq, Structural, Debug)]
pub struct Delivery {
    pub to: i32,
    pub ok: bool,
}

/// A command that names a player the registry does not hold; discarded with
/// a warning, the world continues.
#[derive(Clone, Copy, PartialEq, Eq, Structural, Debug)]
pub enum WorldError {
    SessionLookup,
}

/// The world: spatial grid, player registry and the session handles events
/// fan out through. All mutation happens inside its own command loop.
pub struct World {
    pub world_id: i32,
    pub config: WorldConfig,
    pub sessions: VecMap<PlayerSender>,
    pub player_grid: VecMap<CellId>,
    pub grids: CellMap<Grid>,
}

impl World {
    /// Whether this player is in the registry.
    pub open spec fn registered(self, id: i32) -> bool {
        self.player_grid@.dom().contains(id)
    }

    /// The cell the registry holds this player in.
    pub open spec fn cell_of_player(self, id: i32) -> CellId {
        self.player_grid@[id]
    }

    /// The authoritative record of a registered player.
    pub open spec fn state_of(self, id: i32) -> State {
        self.grids@[self.player_grid@[id]].players@[id]
    }

    /// The occupants of one cell, as a map from player id to record.
    pub open spec fn grid_players(self, c: CellId) -> Map<i32, State> {
        if self.grids@.dom().contains(c) {
            self.grids@[c].players@
        } else {
            Map::<i32, State>::empty()
        }
    }

    /// The AOI view of a registered player: the clipped rectangle of cells
    /// around its own cell.
    pub open spec fn view_of(self, id: i32) -> CellRect {
        spec_aoi_rect(self.cell_of_player(id), self.config)
    }

    /// Grid-side consistency, everything except the session registry being
    /// in step:
    /// - each structure is a well-formed map;
    /// - a registered player's cell exists and holds the player;
    /// - a player found in a cell is registered in exactly that cell;
    /// - each player's cell is the one derived from its stored position.
    pub open spec fn wf_core(self) -> bool {
        &&& self.config.wf()
        &&& self.sessions.wf()
        &&& self.player_grid.wf()
        &&& self.grids.wf()
        &&& (forall|c: CellId| #[trigger] self.grids@.dom().contains(c)
                ==> self.grids@[c].players.wf())
        &&& (forall|id: i32| #[trigger] self.player_grid@.dom().contains(id) ==> {
                &&& self.grids@.dom().contains(self.player_grid@[id])
                &&& self.grids@[self.player_grid@[id]].players@.dom().contains(id)
            })
        &&& (forall|c: CellId, id: i32|
                self.grids@.dom().contains(c) && #[trigger] self.grids@[c].players@.dom().contains(
                    id) ==> self.player_grid@.dom().contains(id) && self.player_grid@[id] == c)
        &&& (forall|id: i32| #[trigger] self.player_grid@.dom().contains(id)
                ==> spec_cell_of(
                        self.state_of(id).player_state.x as int,
                        self.state_of(id).player_state.y as int,
                        self.config.cell_size as int,
                    ) == self.player_grid@[id])
    }

    /// Full consistency: the session registry holds exactly the registered
    /// players.
    pub open spec fn wf(self) -> bool {
        &&& self.wf_core()
        &&& self.sessions@.dom() == self.player_grid@.dom()
    }

    pub fn new(config: WorldConfig) -> (w: World)
        requires
            config.wf(),
        ensures
            w.wf(),
            w.config == config,
            w.world_id == 0,
            w.sessions@ == Map::<i32, PlayerSender>::empty(),
            w.player_grid@ == Map::<i32, CellId>::empty(),
            w.grids@ == Map::<CellId, Grid>::empty(),
    {
        let w = World {
            world_id: 0,
            config,
            sessions: VecMap::new(),
            player_grid: VecMap::new(),
            grids: CellMap::new(),
        };
        proof {
            assert(w.sessions@.dom() =~= w.player_grid@.dom());
        }
        w
    }

    /// Cell lookup by cell key; `None` for a cell never yet touched.
    pub fn search_grid_by_grid_id(&self, n_x: i32, n_y: i32) -> (r: Option<&Grid>)
        requires
            self.grids.wf(),
        ensures
            match r {
                Some(g) => self.grids@.dom().contains(CellId { x: n_x, y: n_y })
                    && self.grids@[CellId { x: n_x, y: n_y }] == *g,
                None => !self.grids@.dom().contains(CellId { x: n_x, y: n_y }),
            },
    {
        self.grids.get(CellId { x: n_x, y: n_y })
    }

    /// Cell lookup by position.
    pub fn search_grid_by_location(&self, x: i32, y: i32) -> (r: Option<&Grid>)
        requires
            self.grids.wf(),
            self.config.wf(),
        ensures
            ({
                let c = spec_cell_of(x as int, y as int, self.config.cell_size as int);
                match r {
                    Some(g) => self.grids@.dom().contains(c) && self.grids@[c] == *g,
                    None => !self.grids@.dom().contains(c),
                }
            }),
    {
        let (n_x, n_y) = calculate_grid_id(x, y, self.config.cell_size);
        self.search_grid_by_grid_id(n_x, n_y)
    }

    /// Place an unregistered player into the cell derived from its position,
    /// creating the cell lazily.
    pub fn add_player_to_grid(&mut self, player_id: i32, state: State)
        requires
            old(self).wf_core(),
            !old(self).registered(player_id),
        ensures
            final(self).wf_core(),
            final(self).registered(player_id),
            final(self).player_grid@ == old(self).player_grid@.insert(
                player_id,
                spec_cell_of(state.player_state.x as int, state.player_state.y as int,
                    old(self).config.cell_size as int),
            ),
            final(self).state_of(player_id) == state,
            ({
                let c = spec_cell_of(state.player_state.x as int, state.player_state.y as int,
                    old(self).config.cell_size as int);
                &&& final(self).grid_players(c) == old(self).grid_players(c).insert(player_id,
                    state)
                &&& forall|c2: CellId| c2 != c ==> final(self).grid_players(c2)
                    == old(self).grid_players(c2)
            }),
            final(self).sessions == old(self).sessions,
            final(self).config == old(self).config,
            final(self).world_id == old(self).world_id,
    {
        let ghost w0 = *self;
        let (n_x, n_y) = calculate_grid_id(state.player_state.x, state.player_state.y,
            self.config.cell_size);
        let c = CellId { x: n_x, y: n_y };
        self.player_grid.insert(player_id, c);
        let mut g = match self.grids.remove(c) {
            Some(g) => g,
            None => Grid::new(),
        };
        g.players.insert(player_id, state);
        self.grids.insert(c, g);
        proof {
            let w1 = *self;
            assert(w1.grid_players(c) =~= w0.grid_players(c).insert(player_id, state));
            assert forall|c2: CellId| c2 != c implies w1.grid_players(c2) == w0.grid_players(c2)
            by {
                if w0.grids@.dom().contains(c2) {
                    assert(w1.grids@[c2] == w0.grids@[c2]);
                }
            }
            assert forall|id: i32| #[trigger] w1.player_grid@.dom().contains(id) implies {
                &&& w1.grids@.dom().contains(w1.player_grid@[id])
                &&& w1.grids@[w1.player_grid@[id]].players@.dom().contains(id)
                &&& spec_cell_of(w1.state_of(id).player_state.x as int,
                        w1.state_of(id).player_state.y as int,
                        w1.config.cell_size as int) == w1.player_grid@[id]
            } by {
                if id != player_id {
                    assert(w0.player_grid@.dom().contains(id));
                    if w0.player_grid@[id] == c {
                        assert(w1.state_of(id) == w0.state_of(id));
                    }
                }
            }
            assert forall|c2: CellId, id: i32|
                w1.grids@.dom().contains(c2) && #[trigger] w1.grids@[c2].players@.dom().contains(
                    id) implies w1.player_grid@.dom().contains(id) && w1.player_grid@[id] == c2
            by {
                if c2 != c {
                    assert(w0.grids@.dom().contains(c2));
                    assert(w0.grids@[c2].players@.dom().contains(id));
                } else {
                    if id != player_id {
                        assert(w0.grid_players(c).dom().contains(id));
                    }
                }
            }
        }
    }

    /// Take a player out of the registry and out of its cell; the cell
    /// itself stays, even when empty.
    pub fn remove_player_from_grid(&mut self, player_id: i32) -> (r: Option<State>)
        requires
            old(self).wf_core(),
        ensures
            final(self).wf_core(),
            !final(self).registered(player_id),
            final(self).sessions == old(self).sessions,
            final(self).config == old(self).config,
            final(self).world_id == old(self).world_id,
            match r {
                Some(st) => {
                    &&& old(self).registered(player_id)
                    &&& st == old(self).state_of(player_id)
                    &&& final(self).player_grid@ == old(self).player_grid@.remove(player_id)
                    &&& final(self).grid_players(old(self).cell_of_player(player_id))
                        == old(self).grid_players(old(self).cell_of_player(player_id)).remove(
                            player_id)
                    &&& forall|c2: CellId| c2 != old(self).cell_of_player(player_id)
                        ==> final(self).grid_players(c2) == old(self).grid_players(c2)
                }
                None => !old(self).registered(player_id) && *final(self) == *old(self),
            },
    {
        let ghost w0 = *self;
        match self.player_grid.remove(player_id) {
            None => None,
            Some(c) => {
                let mut g = match self.grids.remove(c) {
                    Some(g) => g,
                    None => {
                        proof {
                            assert(false);
                        }
                        Grid::new()
                    }
                };
                let st = match g.players.remove(player_id) {
                    Some(st) => st,
                    None => {
                        proof {
                            assert(false);
                        }
                        Grid::new();
                        return None;
                    }
                };
                self.grids.insert(c, g);
                proof {
                    let w1 = *self;
                    assert(w1.grid_players(c) =~= w0.grid_players(c).remove(player_id));
                    assert forall|c2: CellId| c2 != c implies w1.grid_players(c2)
                        == w0.grid_players(c2)
                    by {
                        if w0.grids@.dom().contains(c2) {
                            assert(w1.grids@[c2] == w0.grids@[c2]);
                        }
                    }
                    assert forall|id: i32| #[trigger] w1.player_grid@.dom().contains(id) implies {
                        &&& w1.grids@.dom().contains(w1.player_grid@[id])
                        &&& w1.grids@[w1.player_grid@[id]].players@.dom().contains(id)
                        &&& spec_cell_of(w1.state_of(id).player_state.x as int,
                                w1.state_of(id).player_state.y as int,
                                w1.config.cell_size as int) == w1.player_grid@[id]
                    } by {
                        assert(w0.player_grid@.dom().contains(id));
                        if w0.player_grid@[id] == c {
                            assert(w1.state_of(id) == w0.state_of(id));
                        }
                    }
                    assert forall|c2: CellId, id: i32|
                        w1.grids@.dom().contains(c2)
                            && #[trigger] w1.grids@[c2].players@.dom().contains(id)
                        implies w1.player_grid@.dom().contains(id) && w1.player_grid@[id] == c2
                    by {
                        if c2 != c {
                            assert(w0.grids@.dom().contains(c2));
                            assert(w0.grids@[c2].players@.dom().contains(id));
                        } else {
                            assert(w0.grid_players(c).dom().contains(id));
                        }
                    }
                }
                Some(st)
            }
        }
    }
}

/// The recipient ids of a delivery list, in order.
pub open spec fn tos(out: Seq<Delivery>) -> Seq<i32> {
    out.map_values(|d: Delivery| d.to)
}

/// No recipient appears twice.
pub open spec fn tos_distinct(out: Seq<Delivery>) -> bool {
    forall|i: int, j: int| 0 <= i < j < out.len() ==> out[i].to != out[j].to
}

/// Whether a cell passes a fan-out's rectangle test: inside the first
/// rectangle and outside the excluded one.
pub open spec fn rect_keep(c: CellId, inside: CellRect, excl_rect: Option<CellRect>) -> bool {
    &&& inside.spec_contains(c)
    &&& match excl_rect {
        Some(e) => !e.spec_contains(c),
        None => true,
    }
}

/// Whether an id passes a fan-out's id filter.
pub open spec fn id_keep(id: i32, excl_id: Option<i32>) -> bool {
    match excl_id {
        Some(x) => id != x,
        None => true,
    }
}

impl World {
    /// Whether a player is selected for a fan-out: registered, its cell
    /// passing the rectangle test, and the id passing the id filter.
    pub open spec fn selected(
        self,
        id: i32,
        inside: CellRect,
        excl_rect: Option<CellRect>,
        excl_id: Option<i32>,
    ) -> bool {
        &&& self.registered(id)
        &&& rect_keep(self.cell_of_player(id), inside, excl_rect)
        &&& id_keep(id, excl_id)
    }

    /// The authoritative record of a player, straight off the grid.
    pub fn state_lookup(&self, player_id: i32) -> (r: Option<State>)
        requires
            self.wf_core(),
        ensures
            match r {
                Some(st) => self.registered(player_id) && st == self.state_of(player_id),
                None => !self.registered(player_id),
            },
    {
        match self.player_grid.get(player_id) {
            None => None,
            Some(c) => match self.grids.get(*c) {
                None => {
                    proof {
                        assert(false);
                    }
                    None
                }
                Some(g) => match g.players.get(player_id) {
                    None => {
                        proof {
                            assert(false);
                        }
                        None
                    }
                    Some(st) => Some(*st),
                },
            },
        }
    }

    /// Every player whose cell passes the rectangle test, minus the one the
    /// id filter names; each selected player exactly once. The walk visits
    /// only the cells of the rectangle itself, so a fan-out costs the AOI
    /// area, never the count of cells ever created.
    fn collect_players(
        &self,
        inside: CellRect,
        excl_rect: Option<CellRect>,
        excl_id: Option<i32>,
    ) -> (ids: Vec<i32>)
        requires
            self.wf_core(),
        ensures
            forall|id: i32| #[trigger] ids@.contains(id)
                == self.selected(id, inside, excl_rect, excl_id),
            forall|i: int, j: int| 0 <= i < j < ids@.len() ==> ids@[i] != ids@[j],
    {
        let ghost w = *self;
        let mut ids: Vec<i32> = Vec::new();
        if inside.min_x > inside.max_x || inside.min_y > inside.max_y {
            proof {
                assert forall|id: i32| !#[trigger] ids@.contains(id)
                    && !w.selected(id, inside, excl_rect, excl_id) by {}
            }
            return ids;
        }
        let max_x: i64 = inside.max_x as i64;
        let max_y: i64 = inside.max_y as i64;
        let mut cx: i64 = inside.min_x as i64;
        while cx <= max_x
            invariant
                w == *self,
                w.wf_core(),
                inside.min_x <= cx <= max_x + 1,
                max_x == inside.max_x,
                max_y == inside.max_y,
                inside.min_x <= inside.max_x,
                inside.min_y <= inside.max_y,
                forall|id: i32| #[trigger] ids@.contains(id) == (w.selected(id, inside,
                    excl_rect, excl_id) && w.cell_of_player(id).x < cx),
                forall|i: int, j: int| 0 <= i < j < ids@.len() ==> ids@[i] != ids@[j],
            decreases max_x + 1 - cx,
        {
            let mut cy: i64 = inside.min_y as i64;
            proof {
                assert forall|id: i32| #[trigger] ids@.contains(id) == (w.selected(id, inside,
                    excl_rect, excl_id) && (w.cell_of_player(id).x < cx
                        || (w.cell_of_player(id).x == cx && w.cell_of_player(id).y < cy)))
                by {
                    if w.selected(id, inside, excl_rect, excl_id) {
                        assert(inside.min_y <= w.cell_of_player(id).y);
                    }
                }
            }
            while cy <= max_y
                invariant
                    w == *self,
                    w.wf_core(),
                    inside.min_x <= cx <= max_x,
                    inside.min_y <= cy <= max_y + 1,
                    max_x == inside.max_x,
                    max_y == inside.max_y,
                    inside.min_x <= inside.max_x,
                    inside.min_y <= inside.max_y,
                    forall|id: i32| #[trigger] ids@.contains(id) == (w.selected(id, inside,
                        excl_rect, excl_id) && (w.cell_of_player(id).x < cx
                            || (w.cell_of_player(id).x == cx
                                && w.cell_of_player(id).y < cy))),
                    forall|i: int, j: int| 0 <= i < j < ids@.len() ==> ids@[i] != ids@[j],
                decreases max_y + 1 - cy,
            {
                let c = CellId { x: cx as i32, y: cy as i32 };
                proof {
                    assert(inside.spec_contains(c));
                }
                let keep = match excl_rect {
                    Some(e) => !e.contains(c),
                    None => true,
                };
                if keep {
                    match self.grids.get(c) {
                        Some(g) => {
                            let ghost ids0 = ids@;
                            let n_p = g.players.len();
                            let mut pi: usize = 0;
                            while pi < n_p
                                invariant
                                    w == *self,
                                    w.wf_core(),
                                    pi <= n_p,
                                    w.grids@.dom().contains(c),
                                    w.grids@[c] == *g,
                                    n_p == g.players.seq().len(),
                                    inside.spec_contains(c),
                                    rect_keep(c, inside, excl_rect),
                                    c.x == cx && c.y == cy,
                                    inside.min_x <= cx <= max_x,
                                    inside.min_y <= cy <= max_y,
                                    max_x == inside.max_x,
                                    max_y == inside.max_y,
                                    forall|id: i32| #[trigger] ids0.contains(id)
                                        == (w.selected(id, inside, excl_rect, excl_id)
                                            && (w.cell_of_player(id).x < cx
                                                || (w.cell_of_player(id).x == cx
                                                    && w.cell_of_player(id).y < cy))),
                                    forall|id: i32| #[trigger] ids@.contains(id)
                                        == (ids0.contains(id) || (exists|pj: int|
                                            0 <= pj < pi
                                            && #[trigger] g.players.seq()[pj].0 == id
                                            && id_keep(id, excl_id))),
                                    forall|i: int, j: int| 0 <= i < j < ids@.len()
                                        ==> ids@[i] != ids@[j],
                                decreases n_p - pi,
                            {
                                let pid = g.players.pair_at(pi).0;
                                let ghost pre_ids = ids@;
                                proof {
                                    w.lemma_cell_occupant(c, pi as int);
                                    assert(!ids0.contains(pid));
                                }
                                let skip = match excl_id {
                                    Some(x) => pid == x,
                                    None => false,
                                };
                                if !skip {
                                    proof {
                                        assert(!ids@.contains(pid)) by {
                                            if ids@.contains(pid) {
                                                let pj = choose|pj: int| 0 <= pj < pi
                                                    && g.players.seq()[pj].0 == pid
                                                    && id_keep(pid, excl_id);
                                                crate::vecmap::lemma_assoc_index(
                                                    g.players.seq(), pj);
                                                crate::vecmap::lemma_assoc_index(
                                                    g.players.seq(), pi as int);
                                            }
                                        }
                                    }
                                    ids.push(pid);
                                }
                                proof {
                                    let pseq = g.players.seq();
                                    assert(!skip == id_keep(pid, excl_id));
                                    assert forall|id: i32| #[trigger] ids@.contains(id)
                                        == (pre_ids.contains(id) || (!skip && id == pid))
                                    by {
                                        if ids@.contains(id) {
                                            let k = choose|k: int| 0 <= k < ids@.len()
                                                && ids@[k] == id;
                                            if k < pre_ids.len() {
                                                assert(pre_ids[k] == id);
                                            }
                                        }
                                        if pre_ids.contains(id) {
                                            let k = choose|k: int| 0 <= k < pre_ids.len()
                                                && pre_ids[k] == id;
                                            assert(ids@[k] == id);
                                        }
                                        if !skip && id == pid {
                                            assert(ids@[pre_ids.len() as int] == id);
                                        }
                                    }
                                    assert forall|id: i32| #[trigger] ids@.contains(id)
                                        == (ids0.contains(id) || (exists|pj: int|
                                            0 <= pj < pi + 1 && #[trigger] pseq[pj].0 == id
                                            && id_keep(id, excl_id))) by {
                                        if ids@.contains(id) {
                                            if pre_ids.contains(id) {
                                                if !ids0.contains(id) {
                                                    let pj = choose|pj: int| 0 <= pj < pi
                                                        && pseq[pj].0 == id
                                                        && id_keep(id, excl_id);
                                                    assert(pseq[pj].0 == id);
                                                }
                                            } else {
                                                assert(id == pid && !skip);
                                                assert(pseq[pi as int].0 == id);
                                            }
                                        }
                                        if ids0.contains(id) {
                                            assert(pre_ids.contains(id));
                                        }
                                        if exists|pj: int| 0 <= pj < pi + 1
                                            && #[trigger] pseq[pj].0 == id
                                            && id_keep(id, excl_id) {
                                            let pj = choose|pj: int| 0 <= pj < pi + 1
                                                && pseq[pj].0 == id && id_keep(id, excl_id);
                                            if pj < pi {
                                                assert(pseq[pj].0 == id);
                                                assert(pre_ids.contains(id));
                                            } else {
                                                assert(id == pid && !skip);
                                            }
                                            assert(ids@.contains(id));
                                        }
                                    }
                                }
                                pi = pi + 1;
                            }
                            proof {
                                w.lemma_cell_done(c, ids0, ids@, inside, excl_rect, excl_id,
                                    cx as int, cy as int);
                            }
                        }
                        None => {
                            proof {
                                assert forall|id: i32| #[trigger] ids@.contains(id)
                                    == (w.selected(id, inside, excl_rect, excl_id)
                                        && (w.cell_of_player(id).x < cx
                                            || (w.cell_of_player(id).x == cx
                                                && w.cell_of_player(id).y < cy + 1))) by {
                                    if w.selected(id, inside, excl_rect, excl_id)
                                        && w.cell_of_player(id) == c {
                                        assert(w.grids@.dom().contains(c));
                                    }
                                }
                            }
                        }
                    }
                } else {
                    proof {
                        assert forall|id: i32| #[trigger] ids@.contains(id)
                            == (w.selected(id, inside, excl_rect, excl_id)
                                && (w.cell_of_player(id).x < cx
                                    || (w.cell_of_player(id).x == cx
                                        && w.cell_of_player(id).y < cy + 1))) by {
                            if w.selected(id, inside, excl_rect, excl_id)
                                && w.cell_of_player(id) == c {
                                assert(rect_keep(c, inside, excl_rect));
                            }
                        }
                    }
                }
                cy = cy + 1;
            }
            proof {
                assert forall|id: i32| #[trigger] ids@.contains(id) == (w.selected(id, inside,
                    excl_rect, excl_id) && w.cell_of_player(id).x < cx + 1) by {
                    if w.selected(id, inside, excl_rect, excl_id) {
                        assert(w.cell_of_player(id).y <= inside.max_y);
                    }
                }
            }
            cx = cx + 1;
        }
        proof {
            assert forall|id: i32| #[trigger] ids@.contains(id) == w.selected(id, inside,
                excl_rect, excl_id) by {
                if w.selected(id, inside, excl_rect, excl_id) {
                    assert(w.cell_of_player(id).x <= inside.max_x);
                }
            }
        }
        ids
    }

    /// The occupant at one position of a cell's bucket is registered in
    /// exactly that cell.
    proof fn lemma_cell_occupant(self, c: CellId, pj: int)
        requires
            self.wf_core(),
            self.grids@.dom().contains(c),
            0 <= pj < self.grids@[c].players.seq().len(),
        ensures
            ({
                let id = self.grids@[c].players.seq()[pj].0;
                &&& self.registered(id)
                &&& self.cell_of_player(id) == c
                &&& self.state_of(id) == self.grids@[c].players.seq()[pj].1
            }),
    {
        crate::vecmap::lemma_assoc_index(self.grids@[c].players.seq(), pj);
        let id = self.grids@[c].players.seq()[pj].0;
        assert(self.grids@[c].players@.dom().contains(id));
        assert(self.grids@[c].players@[id] == self.grids@[c].players.seq()[pj].1);
    }

    /// Finishing one cell's bucket extends the walked region by exactly that
    /// cell's selected occupants.
    proof fn lemma_cell_done(
        self,
        c: CellId,
        ids0: Seq<i32>,
        ids: Seq<i32>,
        inside: CellRect,
        excl_rect: Option<CellRect>,
        excl_id: Option<i32>,
        cx: int,
        cy: int,
    )
        requires
            self.wf_core(),
            self.grids@.dom().contains(c),
            rect_keep(c, inside, excl_rect),
            c.x == cx && c.y == cy,
            forall|id: i32| #[trigger] ids0.contains(id) == (self.selected(id, inside,
                excl_rect, excl_id) && (self.cell_of_player(id).x < cx
                    || (self.cell_of_player(id).x == cx && self.cell_of_player(id).y < cy))),
            forall|id: i32| #[trigger] ids.contains(id) == (ids0.contains(id) || (exists|
                pj: int|
                0 <= pj < self.grids@[c].players.seq().len()
                && #[trigger] self.grids@[c].players.seq()[pj].0 == id
                && id_keep(id, excl_id))),
        ensures
            forall|id: i32| #[trigger] ids.contains(id) == (self.selected(id, inside,
                excl_rect, excl_id) && (self.cell_of_player(id).x < cx
                    || (self.cell_of_player(id).x == cx
                        && self.cell_of_player(id).y < cy + 1))),
    {
        assert forall|id: i32| #[trigger] ids.contains(id) == (self.selected(id, inside,
            excl_rect, excl_id) && (self.cell_of_player(id).x < cx
                || (self.cell_of_player(id).x == cx && self.cell_of_player(id).y < cy + 1)))
        by {
            if ids.contains(id) && !ids0.contains(id) {
                let pj = choose|pj: int| 0 <= pj < self.grids@[c].players.seq().len()
                    && self.grids@[c].players.seq()[pj].0 == id && id_keep(id, excl_id);
                self.lemma_cell_occupant(c, pj);
            }
            if self.selected(id, inside, excl_rect, excl_id) && !(self.cell_of_player(id).x
                < cx || (self.cell_of_player(id).x == cx
                    && self.cell_of_player(id).y < cy)) && self.cell_of_player(id).x == cx
                && self.cell_of_player(id).y < cy + 1 {
                assert(self.cell_of_player(id) == c);
                assert(self.grids@[c].players@.dom().contains(id));
                crate::vecmap::lemma_assoc_contains(self.grids@[c].players.seq(), id);
                let pj = choose|pj: int| 0 <= pj < self.grids@[c].players.seq().len()
                    && self.grids@[c].players.seq()[pj].0 == id;
                assert(self.grids@[c].players.seq()[pj].0 == id);
            }
        }
    }
}


/// The ids named by a snapshot's entries, in order.
pub open spec fn presence_ids(s: Seq<PresenceEntry>) -> Seq<i32> {
    s.map_values(|e: PresenceEntry| e.player_id)
}

/// What tearing one player down produced: the kick signal, if a session
/// existed, and the `PlayerLeave` fan-out to its last AOI view.
pub struct PlayerRemoval {
    pub player_id: i32,
    pub kicked: Option<Delivery>,
    pub leaves: Vec<Delivery>,
}

impl World {
    /// The AOI view of a registered player. The view is defined only for a
    /// player the grid holds: a command naming an unknown id is discarded at
    /// the command boundary (`move_player`, `disconnect_player`) before any
    /// view is taken, so callers inside the world always have this
    /// precondition.
    pub fn get_player_aoi_view(&self, player_id: i32) -> (r: CellRect)
        requires
            self.wf_core(),
            self.registered(player_id),
        ensures
            r == self.view_of(player_id),
    {
        let c = match self.player_grid.get(player_id) {
            Some(c) => *c,
            None => {
                proof {
                    assert(false);
                }
                CellId { x: 0, y: 0 }
            }
        };
        aoi_rect(c, self.config)
    }

    /// Send one copy of a message to each listed session, in list order. A
    /// send whose queue is gone is recorded as failed, never fatal to the
    /// rest of the fan-out; an id without a session is likewise recorded as
    /// a failed delivery and skipped, never a halt.
    pub fn broadcast_msg(&self, players: &Vec<i32>, msg: &Message) -> (out: Vec<Delivery>)
        requires
            self.sessions.wf(),
        ensures
            out@.len() == players@.len(),
            forall|i: int| 0 <= i < out@.len() ==> (#[trigger] out@[i]).to == players@[i],
            forall|i: int| 0 <= i < out@.len()
                && !self.sessions@.dom().contains(#[trigger] players@[i]) ==> !out@[i].ok,
    {
        let mut out: Vec<Delivery> = Vec::new();
        let n = players.len();
        let mut i: usize = 0;
        while i < n
            invariant
                i <= n,
                n == players@.len(),
                out@.len() == i,
                self.sessions.wf(),
                forall|j: int| 0 <= j < i ==> (#[trigger] out@[j]).to == players@[j],
                forall|j: int| 0 <= j < i
                    && !self.sessions@.dom().contains(#[trigger] players@[j]) ==> !out@[j].ok,
            decreases n - i,
        {
            let pid = players[i];
            match self.sessions.get(pid) {
                Some(sender) => {
                    let ok = channel_send(&sender.proto, msg.clone());
                    out.push(Delivery { to: pid, ok });
                }
                None => {
                    out.push(Delivery { to: pid, ok: false });
                }
            }
            i = i + 1;
        }
        out
    }

    /// Fan a message out to every player in the AOI view of `current_player`.
    pub fn broadcast_msg_to_player_aoi(
        &self,
        current_player: i32,
        msg: &Message,
        include_self: bool,
    ) -> (out: Vec<Delivery>)
        requires
            self.wf(),
            self.registered(current_player),
        ensures
            forall|id: i32| #[trigger] tos(out@).contains(id) == self.selected(
                id,
                self.view_of(current_player),
                None,
                if include_self { None } else { Some(current_player) },
            ),
            tos_distinct(out@),
    {
        let rect = self.get_player_aoi_view(current_player);
        let excl_id = if include_self { None } else { Some(current_player) };
        let targets = self.collect_players(rect, None, excl_id);
        let out = self.broadcast_msg(&targets, msg);
        proof {
            assert(tos(out@) =~= targets@);
        }
        out
    }

    /// Fan a message out to every player in one cell's bucket.
    pub fn broadcast_msg_to_grid(&self, grid: &Grid, msg: &Message) -> (out: Vec<Delivery>)
        requires
            self.sessions.wf(),
            grid.players.wf(),
        ensures
            forall|id: i32| #[trigger] tos(out@).contains(id)
                == grid.players@.dom().contains(id),
            tos_distinct(out@),
    {
        let mut targets: Vec<i32> = Vec::new();
        let n = grid.players.len();
        let mut i: usize = 0;
        while i < n
            invariant
                i <= n,
                n == grid.players.seq().len(),
                grid.players.wf(),
                targets@.len() == i,
                forall|j: int| 0 <= j < i
                    ==> #[trigger] targets@[j] == grid.players.seq()[j].0,
            decreases n - i,
        {
            targets.push(grid.players.pair_at(i).0);
            i = i + 1;
        }
        proof {
            assert forall|id: i32| #[trigger] targets@.contains(id)
                == grid.players@.dom().contains(id) by {
                crate::vecmap::lemma_assoc_contains(grid.players.seq(), id);
                if grid.players@.dom().contains(id) {
                    let j = choose|j: int| 0 <= j < grid.players.seq().len()
                        && grid.players.seq()[j].0 == id;
                    assert(targets@[j] == id);
                }
            }
        }
        let out = self.broadcast_msg(&targets, msg);
        proof {
            assert(tos(out@) =~= targets@);
        }
        out
    }

    /// Disconnect or evict one player: fan `PlayerLeave` out to its last AOI
    /// view, send its session the terminal kick signal, and drop it from the
    /// registry and its cell. Unknown ids are a no-op.
    pub fn disconnect_player(&mut self, player_id: i32) -> (r: PlayerRemoval)
        requires
            old(self).wf(),
        ensures
            final(self).wf(),
            final(self).config == old(self).config,
            final(self).world_id == old(self).world_id,
            !final(self).registered(player_id),
            final(self).player_grid@ == old(self).player_grid@.remove(player_id),
            final(self).sessions@ == old(self).sessions@.remove(player_id),
            final(self).sessions.seq().len() == old(self).sessions.seq().len()
                - (if old(self).registered(player_id) { 1int } else { 0int }),
            forall|id2: i32| id2 != player_id ==> #[trigger] final(self).registered(id2)
                == old(self).registered(id2),
            forall|id2: i32| id2 != player_id && old(self).registered(id2) ==> {
                &&& #[trigger] final(self).state_of(id2) == old(self).state_of(id2)
                &&& final(self).cell_of_player(id2) == old(self).cell_of_player(id2)
            },
            !old(self).registered(player_id) ==> *final(self) == *old(self),
            r.player_id == player_id,
            (r.kicked is Some) == old(self).registered(player_id),
            (match r.kicked {
                Some(d) => d.to == player_id,
                None => true,
            }),
            forall|id2: i32| #[trigger] tos(r.leaves@).contains(id2) == (
                old(self).registered(player_id) && old(self).selected(
                    id2,
                    old(self).view_of(player_id),
                    None,
                    Some(player_id),
                )),
            tos_distinct(r.leaves@),
    {
        let ghost w0 = *self;
        if !self.player_grid.contains_key(player_id) {
            proof {
                assert(!w0.sessions@.dom().contains(player_id));
                assert(w0.player_grid@.remove(player_id) =~= w0.player_grid@);
                assert(w0.sessions@.remove(player_id) =~= w0.sessions@);
                assert(forall|id2: i32| !#[trigger] tos(Seq::<Delivery>::empty()).contains(id2));
            }
            return PlayerRemoval { player_id, kicked: None, leaves: Vec::new() };
        }
        let leaves = self.broadcast_msg_to_player_aoi(
            player_id,
            &Message::PlayerLeave { player_id },
            false,
        );
        let kicked = match self.sessions.remove(player_id) {
            Some(sender) => {
                let reason = KickOutReason::MultiLogin(
                    "other player login with same account".to_owned());
                let wrap = PlayerMessageWrap::new(self.world_id,
                    PlayerMessage::KickOut(reason));
                let ok = channel_send(&sender.player, wrap);
                Some(Delivery { to: player_id, ok })
            }
            None => {
                proof {
                    assert(false);
                }
                None
            }
        };
        self.remove_player_from_grid(player_id);
        proof {
            let w1 = *self;
            assert(w1.sessions@.dom() =~= w1.player_grid@.dom());
            assert forall|id2: i32| id2 != player_id && w0.registered(id2) implies {
                &&& #[trigger] w1.state_of(id2) == w0.state_of(id2)
                &&& w1.cell_of_player(id2) == w0.cell_of_player(id2)
            } by {
                let c2 = w0.cell_of_player(id2);
                let c0 = w0.cell_of_player(player_id);
                assert(w1.registered(id2));
                assert(w1.cell_of_player(id2) == c2);
                assert(w0.grid_players(c2).dom().contains(id2));
                if c2 == c0 {
                    assert(w1.grid_players(c2) == w0.grid_players(c0).remove(player_id));
                } else {
                    assert(w1.grid_players(c2) == w0.grid_players(c2));
                }
                assert(w1.grid_players(c2)[id2] == w0.grid_players(c2)[id2]);
                assert(w1.state_of(id2) == w1.grid_players(c2)[id2]);
                assert(w0.state_of(id2) == w0.grid_players(c2)[id2]);
            }
        }
        PlayerRemoval { player_id, kicked, leaves }
    }

    /// Whether `id` still has its entry when a removal list reaches
    /// position `i`: registered at the start and not named earlier in the
    /// list.
    pub open spec fn still_registered_at(self, players: Seq<i32>, i: int, id: i32) -> bool {
        self.registered(id) && !players.subrange(0, i).contains(id)
    }

    /// Tear several players down, one after the other. Each returned record
    /// says what its removal did: the kick signal exactly when the id still
    /// had a session at its turn, and the `PlayerLeave` fan-out to the AOI
    /// view the player held at that moment.
    pub fn remove_players(&mut self, players: Vec<i32>) -> (outs: Vec<PlayerRemoval>)
        requires
            old(self).wf(),
        ensures
            final(self).wf(),
            final(self).config == old(self).config,
            final(self).world_id == old(self).world_id,
            outs@.len() == players@.len(),
            forall|i: int| 0 <= i < outs@.len()
                ==> (#[trigger] outs@[i]).player_id == players@[i],
            forall|i: int| 0 <= i < outs@.len() ==> ((#[trigger] outs@[i]).kicked is Some)
                == old(self).still_registered_at(players@, i, players@[i]),
            forall|i: int| 0 <= i < outs@.len() ==> (match (#[trigger] outs@[i]).kicked {
                Some(d) => d.to == players@[i],
                None => true,
            }),
            forall|i: int, id2: i32| 0 <= i < outs@.len()
                ==> #[trigger] tos(outs@[i].leaves@).contains(id2) == (
                    old(self).still_registered_at(players@, i, players@[i])
                    && old(self).still_registered_at(players@, i, id2)
                    && old(self).selected(id2, old(self).view_of(players@[i]), None,
                        Some(players@[i]))),
            forall|i: int| 0 <= i < outs@.len()
                ==> tos_distinct((#[trigger] outs@[i]).leaves@),
            forall|id: i32| #[trigger] final(self).registered(id)
                == (old(self).registered(id) && !players@.contains(id)),
            forall|id: i32| #[trigger] final(self).registered(id) ==> {
                &&& final(self).state_of(id) == old(self).state_of(id)
                &&& final(self).cell_of_player(id) == old(self).cell_of_player(id)
                &&& final(self).sessions@[id] == old(self).sessions@[id]
            },
            final(self).sessions.seq().len() <= old(self).sessions.seq().len(),
            players@.len() > 0 && old(self).registered(players@[0])
                ==> final(self).sessions.seq().len() < old(self).sessions.seq().len(),
    {
        let ghost w0 = *self;
        let mut outs: Vec<PlayerRemoval> = Vec::new();
        let n = players.len();
        let mut i: usize = 0;
        while i < n
            invariant
                i <= n,
                n == players@.len(),
                outs@.len() == i,
                self.wf(),
                self.config == w0.config,
                self.world_id == w0.world_id,
                forall|j: int| 0 <= j < i
                    ==> (#[trigger] outs@[j]).player_id == players@[j],
                forall|j: int| 0 <= j < i ==> ((#[trigger] outs@[j]).kicked is Some)
                    == w0.still_registered_at(players@, j, players@[j]),
                forall|j: int| 0 <= j < i ==> (match (#[trigger] outs@[j]).kicked {
                    Some(d) => d.to == players@[j],
                    None => true,
                }),
                forall|j: int, id2: i32| 0 <= j < i
                    ==> #[trigger] tos(outs@[j].leaves@).contains(id2) == (
                        w0.still_registered_at(players@, j, players@[j])
                        && w0.still_registered_at(players@, j, id2)
                        && w0.selected(id2, w0.view_of(players@[j]), None,
                            Some(players@[j]))),
                forall|j: int| 0 <= j < i
                    ==> tos_distinct((#[trigger] outs@[j]).leaves@),
                forall|id: i32| #[trigger] self.registered(id)
                    == (w0.registered(id) && !players@.subrange(0, i as int).contains(id)),
                forall|id: i32| #[trigger] self.registered(id) ==> {
                    &&& self.state_of(id) == w0.state_of(id)
                    &&& self.cell_of_player(id) == w0.cell_of_player(id)
                    &&& self.sessions@[id] == w0.sessions@[id]
                },
                self.sessions.seq().len() <= w0.sessions.seq().len(),
                i > 0 && players@.len() > 0 && w0.registered(players@[0])
                    ==> self.sessions.seq().len() < w0.sessions.seq().len(),
            decreases n - i,
        {
            let ghost mid = *self;
            let pid = players[i];
            let r = self.disconnect_player(pid);
            outs.push(r);
            proof {
                assert forall|id: i32| #[trigger] self.registered(id)
                    == (w0.registered(id) && !players@.subrange(0, i + 1).contains(id)) by {
                    assert(players@.subrange(0, i + 1).contains(id)
                        == (players@.subrange(0, i as int).contains(id) || players@[i as int]
                            == id)) by {
                        let pre = players@.subrange(0, i as int);
                        let cur = players@.subrange(0, i + 1);
                        if cur.contains(id) {
                            let j = choose|j: int| 0 <= j < cur.len() && cur[j] == id;
                            if j < i {
                                assert(pre[j] == id);
                            }
                        }
                        if pre.contains(id) {
                            let j = choose|j: int| 0 <= j < pre.len() && pre[j] == id;
                            assert(cur[j] == id);
                        }
                        if players@[i as int] == id {
                            assert(cur[i as int] == id);
                        }
                    }
                }
                if i == 0 && players@.len() > 0 && w0.registered(players@[0]) {
                    assert(mid.registered(pid));
                }
                assert(mid.registered(pid)
                    == w0.still_registered_at(players@, i as int, pid));
                assert forall|id2: i32| #[trigger] tos(r.leaves@).contains(id2) == (
                    w0.still_registered_at(players@, i as int, pid)
                    && w0.still_registered_at(players@, i as int, id2)
                    && w0.selected(id2, w0.view_of(pid), None, Some(pid))) by {
                    if mid.registered(pid) {
                        assert(mid.view_of(pid) == w0.view_of(pid));
                        if tos(r.leaves@).contains(id2) {
                            assert(mid.selected(id2, mid.view_of(pid), None, Some(pid)));
                            assert(mid.registered(id2));
                        }
                        if w0.still_registered_at(players@, i as int, id2)
                            && w0.selected(id2, w0.view_of(pid), None, Some(pid)) {
                            assert(mid.registered(id2));
                            assert(mid.selected(id2, mid.view_of(pid), None, Some(pid)));
                        }
                    }
                }
            }
            i = i + 1;
        }
        proof {
            assert(players@.subrange(0, n as int) =~= players@);
        }
        outs
    }
}


/// What a login produced: the eviction of any prior session under the same
/// id, the `PlayerEnter` fan-out, and the presence snapshot sent back to
/// the joining session.
pub struct LoginOut {
    pub evicted: PlayerRemoval,
    pub enters: Vec<Delivery>,
    pub snapshot: Delivery,
    pub presence: Vec<PresenceEntry>,
}

/// The dispatch half of one drained command.
pub enum WorldOutcome {
    Login(LoginOut),
    Logout(PlayerRemoval),
    Moved(MoveOut),
    MoveRefused(WorldError),
}

/// One drained command: what its dispatch produced, and every session the
/// deferred-removal pass tore down afterwards because a queue rejected a
/// delivery.
pub struct WorldStep {
    pub outcome: WorldOutcome,
    pub removed: Vec<PlayerRemoval>,
}

/// What a move produced: the `PlayerLeave`, `PlayerEnter` and `PlayerMove`
/// fan-outs, in the order they were sent.
pub struct MoveOut {
    pub leaves: Vec<Delivery>,
    pub enters: Vec<Delivery>,
    pub moves: Vec<Delivery>,
}

impl World {
    /// The presence entries of every player in the rectangle except
    /// `excl_id`: its id, its kinematic state and its cosmetic attribute.
    fn collect_presence(&self, rect: CellRect, excl_id: i32) -> (entries: Vec<PresenceEntry>)
        requires
            self.wf_core(),
        ensures
            forall|id: i32| #[trigger] presence_ids(entries@).contains(id)
                == self.selected(id, rect, None, Some(excl_id)),
            forall|i: int| 0 <= i < entries@.len() ==> {
                let e = #[trigger] entries@[i];
                &&& self.registered(e.player_id)
                &&& e.state == self.state_of(e.player_id).player_state
                &&& e.color == self.state_of(e.player_id).color
            },
            forall|i: int, j: int| 0 <= i < j < entries@.len()
                ==> entries@[i].player_id != entries@[j].player_id,
    {
        let ids = self.collect_players(rect, None, Some(excl_id));
        let mut entries: Vec<PresenceEntry> = Vec::new();
        let n = ids.len();
        let mut i: usize = 0;
        while i < n
            invariant
                i <= n,
                n == ids@.len(),
                self.wf_core(),
                entries@.len() == i,
                forall|id: i32| #[trigger] ids@.contains(id)
                    == self.selected(id, rect, None, Some(excl_id)),
                forall|a: int, b: int| 0 <= a < b < ids@.len() ==> ids@[a] != ids@[b],
                forall|j: int| 0 <= j < i ==> (#[trigger] entries@[j]).player_id == ids@[j],
                forall|j: int| 0 <= j < i ==> {
                    let e = #[trigger] entries@[j];
                    &&& self.registered(e.player_id)
                    &&& e.state == self.state_of(e.player_id).player_state
                    &&& e.color == self.state_of(e.player_id).color
                },
            decreases n - i,
        {
            let pid = ids[i];
            proof {
                assert(ids@.contains(ids@[i as int]));
            }
            match self.state_lookup(pid) {
                Some(st) => {
                    entries.push(PresenceEntry {
                        player_id: pid,
                        state: st.player_state,
                        color: st.color,
                    });
                }
                None => {
                    proof {
                        assert(false);
                    }
                }
            }
            i = i + 1;
        }
        proof {
            assert(presence_ids(entries@) =~= ids@);
        }
        entries
    }

    /// Register a player: evict any prior session under the same id first,
    /// install the new session and record, then announce the newcomer to its
    /// AOI view and hand it a snapshot of everyone already visible.
    pub fn add_player(&mut self, player_id: i32, player_login_data: PlayerLoginData) -> (out:
        LoginOut)
        requires
            old(self).wf(),
        ensures
            final(self).wf(),
            final(self).config == old(self).config,
            final(self).world_id == old(self).world_id,
            final(self).registered(player_id),
            final(self).state_of(player_id) == player_login_data.state,
            final(self).cell_of_player(player_id) == spec_cell_of(
                player_login_data.state.player_state.x as int,
                player_login_data.state.player_state.y as int,
                old(self).config.cell_size as int,
            ),
            final(self).player_grid@ == old(self).player_grid@.insert(
                player_id,
                spec_cell_of(
                    player_login_data.state.player_state.x as int,
                    player_login_data.state.player_state.y as int,
                    old(self).config.cell_size as int,
                ),
            ),
            final(self).sessions@ == old(self).sessions@.insert(player_id,
                player_login_data.sender),
            forall|id2: i32| id2 != player_id ==> #[trigger] final(self).registered(id2)
                == old(self).registered(id2),
            forall|id2: i32| id2 != player_id && old(self).registered(id2) ==> {
                &&& #[trigger] final(self).state_of(id2) == old(self).state_of(id2)
                &&& final(self).cell_of_player(id2) == old(self).cell_of_player(id2)
            },
            out.evicted.player_id == player_id,
            (out.evicted.kicked is Some) == old(self).registered(player_id),
            (match out.evicted.kicked {
                Some(d) => d.to == player_id,
                None => true,
            }),
            forall|id2: i32| #[trigger] tos(out.evicted.leaves@).contains(id2) == (
                old(self).registered(player_id) && old(self).selected(
                    id2,
                    old(self).view_of(player_id),
                    None,
                    Some(player_id),
                )),
            tos_distinct(out.evicted.leaves@),
            forall|id2: i32| #[trigger] tos(out.enters@).contains(id2)
                == final(self).selected(id2, final(self).view_of(player_id), None, None),
            tos_distinct(out.enters@),
            out.snapshot.to == player_id,
            forall|id2: i32| #[trigger] presence_ids(out.presence@).contains(id2)
                == final(self).selected(id2, final(self).view_of(player_id), None,
                    Some(player_id)),
            forall|i: int| 0 <= i < out.presence@.len() ==> {
                let e = #[trigger] out.presence@[i];
                &&& final(self).registered(e.player_id)
                &&& e.state == final(self).state_of(e.player_id).player_state
                &&& e.color == final(self).state_of(e.player_id).color
            },
            forall|i: int, j: int| 0 <= i < j < out.presence@.len()
                ==> out.presence@[i].player_id != out.presence@[j].player_id,
    {
        let ghost w0 = *self;
        let PlayerLoginData { sender, state } = player_login_data;
        let evicted = self.disconnect_player(player_id);
        let ghost m1 = *self;
        self.sessions.insert(player_id, sender);
        self.add_player_to_grid(player_id, state);
        proof {
            let w1 = *self;
            assert(w1.sessions@.dom() =~= w1.player_grid@.dom());
            assert(w1.sessions@ =~= w0.sessions@.insert(player_id,
                player_login_data.sender));
            assert(w1.player_grid@ =~= w0.player_grid@.insert(player_id,
                spec_cell_of(state.player_state.x as int, state.player_state.y as int,
                    w0.config.cell_size as int)));
            assert forall|id2: i32| id2 != player_id && w0.registered(id2) implies {
                &&& #[trigger] w1.state_of(id2) == w0.state_of(id2)
                &&& w1.cell_of_player(id2) == w0.cell_of_player(id2)
            } by {
                let c2 = w0.cell_of_player(id2);
                let c = spec_cell_of(state.player_state.x as int, state.player_state.y as int,
                    w0.config.cell_size as int);
                assert(m1.registered(id2) && m1.state_of(id2) == w0.state_of(id2)
                    && m1.cell_of_player(id2) == c2);
                assert(w1.registered(id2));
                assert(w1.cell_of_player(id2) == c2);
                assert(m1.grid_players(c2).dom().contains(id2));
                if c2 == c {
                    assert(w1.grid_players(c2) == m1.grid_players(c).insert(player_id, state));
                } else {
                    assert(w1.grid_players(c2) == m1.grid_players(c2));
                }
                assert(w1.grid_players(c2)[id2] == m1.grid_players(c2)[id2]);
                assert(w1.state_of(id2) == w1.grid_players(c2)[id2]);
                assert(m1.state_of(id2) == m1.grid_players(c2)[id2]);
            }
        }
        let rect = self.get_player_aoi_view(player_id);
        let targets = self.collect_players(rect, None, None);
        let enters = self.broadcast_msg(&targets,
            &Message::PlayerEnter { player_id, color: state.color });
        proof {
            assert(tos(enters@) =~= targets@);
        }
        let presence = self.collect_presence(rect, player_id);
        let snapshot_msg = Message::BulkPresenceSnapshot { players: copy_presence(&presence) };
        let ok = match self.sessions.get(player_id) {
            Some(sender_ref) => channel_send(&sender_ref.proto, snapshot_msg),
            None => {
                proof {
                    assert(false);
                }
                false
            }
        };
        LoginOut { evicted, enters, snapshot: Delivery { to: player_id, ok }, presence }
    }

    /// Apply an authoritative move. If the cell changes, fan `PlayerLeave`
    /// out to the cells that fell out of the AOI rectangle and `PlayerEnter`
    /// to those that came into it; either way fan `PlayerMove` out to the
    /// post-move view. A move for an unregistered player is refused.
    pub fn move_player(&mut self, player_id: i32, new_player_state: PlayerState) -> (r: Result<
        MoveOut,
        WorldError,
    >)
        requires
            old(self).wf(),
        ensures
            final(self).wf(),
            final(self).config == old(self).config,
            final(self).world_id == old(self).world_id,
            final(self).sessions == old(self).sessions,
            (r is Err) == !old(self).registered(player_id),
            match r {
                Err(e) => e == WorldError::SessionLookup && *final(self) == *old(self),
                Ok(out) => {
                    let old_cell = old(self).cell_of_player(player_id);
                    let new_cell = spec_cell_of(new_player_state.x as int,
                        new_player_state.y as int, old(self).config.cell_size as int);
                    let old_view = spec_aoi_rect(old_cell, old(self).config);
                    let new_view = spec_aoi_rect(new_cell, old(self).config);
                    &&& final(self).registered(player_id)
                    &&& final(self).state_of(player_id) == (State {
                        player_state: new_player_state,
                        color: old(self).state_of(player_id).color,
                    })
                    &&& final(self).cell_of_player(player_id) == new_cell
                    &&& final(self).player_grid@ == old(self).player_grid@.insert(player_id,
                        new_cell)
                    &&& (forall|id2: i32| id2 != player_id
                        ==> #[trigger] final(self).registered(id2) == old(self).registered(id2))
                    &&& (forall|id2: i32| id2 != player_id && old(self).registered(id2) ==> {
                        &&& #[trigger] final(self).state_of(id2) == old(self).state_of(id2)
                        &&& final(self).cell_of_player(id2) == old(self).cell_of_player(id2)
                    })
                    &&& (forall|id2: i32| #[trigger] tos(out.leaves@).contains(id2)
                        == final(self).selected(id2, old_view, Some(new_view), None))
                    &&& (forall|id2: i32| #[trigger] tos(out.enters@).contains(id2)
                        == final(self).selected(id2, new_view, Some(old_view), None))
                    &&& (forall|id2: i32| #[trigger] tos(out.moves@).contains(id2)
                        == final(self).selected(id2, new_view, None, None))
                    &&& tos_distinct(out.leaves@)
                    &&& tos_distinct(out.enters@)
                    &&& tos_distinct(out.moves@)
                }
            },
    {
        let ghost w0 = *self;
        let old_cell = match self.player_grid.get(player_id) {
            Some(c) => *c,
            None => {
                return Err(WorldError::SessionLookup);
            }
        };
        let old_state = match self.state_lookup(player_id) {
            Some(st) => st,
            None => {
                proof {
                    assert(false);
                }
                return Err(WorldError::SessionLookup);
            }
        };
        let new_state = State { player_state: new_player_state, color: old_state.color };
        let ghost m0 = *self;
        self.remove_player_from_grid(player_id);
        let ghost m1 = *self;
        self.add_player_to_grid(player_id, new_state);
        proof {
            let w1 = *self;
            assert(w1.sessions@.dom() =~= w1.player_grid@.dom());
            assert(w1.player_grid@ =~= w0.player_grid@.insert(player_id,
                spec_cell_of(new_player_state.x as int, new_player_state.y as int,
                    w0.config.cell_size as int)));
            assert forall|id2: i32| id2 != player_id && w0.registered(id2) implies {
                &&& #[trigger] w1.state_of(id2) == w0.state_of(id2)
                &&& w1.cell_of_player(id2) == w0.cell_of_player(id2)
            } by {
                let c2 = w0.cell_of_player(id2);
                let c0 = w0.cell_of_player(player_id);
                let c = spec_cell_of(new_player_state.x as int, new_player_state.y as int,
                    w0.config.cell_size as int);
                assert(w0.grid_players(c2).dom().contains(id2));
                assert(m1.registered(id2));
                assert(m1.cell_of_player(id2) == c2);
                if c2 == c0 {
                    assert(m1.grid_players(c2) == w0.grid_players(c0).remove(player_id));
                } else {
                    assert(m1.grid_players(c2) == w0.grid_players(c2));
                }
                assert(m1.grid_players(c2)[id2] == w0.grid_players(c2)[id2]);
                assert(m1.state_of(id2) == m1.grid_players(c2)[id2]);
                assert(w0.state_of(id2) == w0.grid_players(c2)[id2]);
                assert(w1.registered(id2));
                assert(w1.cell_of_player(id2) == c2);
                assert(m1.grid_players(c2).dom().contains(id2));
                if c2 == c {
                    assert(w1.grid_players(c2) == m1.grid_players(c).insert(player_id,
                        new_state));
                } else {
                    assert(w1.grid_players(c2) == m1.grid_players(c2));
                }
                assert(w1.grid_players(c2)[id2] == m1.grid_players(c2)[id2]);
                assert(w1.state_of(id2) == w1.grid_players(c2)[id2]);
                assert(m1.state_of(id2) == m1.grid_players(c2)[id2]);
            }
        }
        let (n_x, n_y) = calculate_grid_id(new_player_state.x, new_player_state.y,
            self.config.cell_size);
        let new_cell = CellId { x: n_x, y: n_y };
        let old_view = aoi_rect(old_cell, self.config);
        let new_view = aoi_rect(new_cell, self.config);
        if old_cell.x == new_cell.x && old_cell.y == new_cell.y {
            let targets = self.collect_players(new_view, None, None);
            let moves = self.broadcast_msg(&targets,
                &Message::PlayerMove { player_id, state: new_player_state });
            proof {
                assert(tos(moves@) =~= targets@);
                assert(old_view == new_view);
                assert forall|id2: i32|
                    !#[trigger] self.selected(id2, old_view, Some(new_view), None) by {}
                assert(forall|id2: i32|
                    !#[trigger] tos(Seq::<Delivery>::empty()).contains(id2));
            }
            Ok(MoveOut { leaves: Vec::new(), enters: Vec::new(), moves })
        } else {
            let leave_targets = self.collect_players(old_view, Some(new_view), None);
            let enter_targets = self.collect_players(new_view, Some(old_view), None);
            let move_targets = self.collect_players(new_view, None, None);
            let leaves = self.broadcast_msg(&leave_targets,
                &Message::PlayerLeave { player_id });
            let enters = self.broadcast_msg(&enter_targets,
                &Message::PlayerEnter { player_id, color: old_state.color });
            let moves = self.broadcast_msg(&move_targets,
                &Message::PlayerMove { player_id, state: new_player_state });
            proof {
                assert(tos(leaves@) =~= leave_targets@);
                assert(tos(enters@) =~= enter_targets@);
                assert(tos(moves@) =~= move_targets@);
            }
            Ok(MoveOut { leaves, enters, moves })
        }
    }
}


/// Append the recipients of the failed deliveries in `ds` to `acc`: the
/// deferred-removal list a fan-out leaves behind.
fn collect_failed(ds: &Vec<Delivery>, acc: &mut Vec<i32>)
    ensures
        final(acc)@.len() >= old(acc)@.len(),
{
    let n = ds.len();
    let mut i: usize = 0;
    while i < n
        invariant
            i <= n,
            n == ds@.len(),
            acc@.len() >= old(acc)@.len(),
        decreases n - i,
    {
        let d = ds[i];
        if !d.ok {
            acc.push(d.to);
        }
        i = i + 1;
    }
}

impl World {
    /// Keep only the ids the registry still holds.
    fn filter_registered(&self, ids: &Vec<i32>) -> (r: Vec<i32>)
        requires
            self.player_grid.wf(),
        ensures
            forall|i: int| 0 <= i < r@.len() ==> self.registered(#[trigger] r@[i]),
            r@.len() <= ids@.len(),
    {
        let mut r: Vec<i32> = Vec::new();
        let n = ids.len();
        let mut i: usize = 0;
        while i < n
            invariant
                i <= n,
                n == ids@.len(),
                self.player_grid.wf(),
                forall|k: int| 0 <= k < r@.len() ==> self.registered(#[trigger] r@[k]),
                r@.len() <= i,
            decreases n - i,
        {
            let id = ids[i];
            if self.player_grid.contains_key(id) {
                r.push(id);
            }
            i = i + 1;
        }
        r
    }

    /// Drain one command from the world's ordered queue: dispatch it, then
    /// remove every session whose queue rejected a delivery — after the
    /// fan-out that discovered it, never during. A command naming an unknown
    /// player is discarded; no failure leaves this loop. The returned step
    /// holds the dispatch's own fan-out record and the records of every
    /// session torn down by the deferred-removal pass.
    pub fn handle_world_msg(&mut self, msg: WorldMessageWrap) -> (step: WorldStep)
        requires
            old(self).wf(),
        ensures
            final(self).wf(),
            final(self).config == old(self).config,
            final(self).world_id == old(self).world_id,
            (match msg.message {
                WorldMessage::PlayerLogin(data) => {
                    &&& (step.outcome is Login)
                    &&& (match step.outcome {
                        WorldOutcome::Login(out) => {
                            &&& (out.evicted.kicked is Some) == old(self).registered(
                                msg.player_id)
                            &&& (match out.evicted.kicked {
                                Some(d) => d.to == msg.player_id,
                                None => true,
                            })
                            &&& (forall|id2: i32| #[trigger] tos(
                                out.evicted.leaves@).contains(id2) == (
                                old(self).registered(msg.player_id) && old(self).selected(
                                    id2,
                                    old(self).view_of(msg.player_id),
                                    None,
                                    Some(msg.player_id),
                                )))
                            &&& tos_distinct(out.evicted.leaves@)
                            &&& out.snapshot.to == msg.player_id
                        }
                        _ => true,
                    })
                    &&& forall|id: i32| #[trigger] final(self).registered(id) ==> {
                        &&& (id == msg.player_id ==> final(self).state_of(id) == data.state
                            && final(self).sessions@[id] == data.sender)
                        &&& (id != msg.player_id ==> old(self).registered(id)
                            && final(self).state_of(id) == old(self).state_of(id))
                    }
                }
                WorldMessage::PlayerLogout => {
                    &&& !final(self).registered(msg.player_id)
                    &&& (step.outcome is Logout)
                    &&& (match step.outcome {
                        WorldOutcome::Logout(r) => {
                            &&& r.player_id == msg.player_id
                            &&& (r.kicked is Some) == old(self).registered(msg.player_id)
                            &&& (forall|id2: i32| #[trigger] tos(r.leaves@).contains(id2)
                                == (old(self).registered(msg.player_id)
                                    && old(self).selected(
                                        id2,
                                        old(self).view_of(msg.player_id),
                                        None,
                                        Some(msg.player_id),
                                    )))
                            &&& tos_distinct(r.leaves@)
                        }
                        _ => true,
                    })
                    &&& forall|id: i32| #[trigger] final(self).registered(id)
                        ==> old(self).registered(id)
                            && final(self).state_of(id) == old(self).state_of(id)
                }
                WorldMessage::PlayerMove(st) => {
                    &&& (step.outcome is Moved) == old(self).registered(msg.player_id)
                    &&& (!old(self).registered(msg.player_id) ==> *final(self) == *old(self)
                        && step.outcome == WorldOutcome::MoveRefused(
                            WorldError::SessionLookup))
                    &&& (final(self).registered(msg.player_id) ==> {
                        &&& final(self).state_of(msg.player_id).player_state == st
                        &&& final(self).cell_of_player(msg.player_id) == spec_cell_of(
                            st.x as int, st.y as int, old(self).config.cell_size as int)
                    })
                    &&& forall|id: i32| id != msg.player_id
                        && #[trigger] final(self).registered(id) ==> old(self).registered(id)
                            && final(self).state_of(id) == old(self).state_of(id)
                }
            }),
            forall|i: int| 0 <= i < step.removed@.len()
                ==> !final(self).registered((#[trigger] step.removed@[i]).player_id),
    {
        let ghost gmsg = msg;
        let player_id = msg.player_id;
        let mut failed: Vec<i32> = Vec::new();
        let outcome = match msg.message {
            WorldMessage::PlayerLogin(data) => {
                let out = self.add_player(player_id, data);
                collect_failed(&out.evicted.leaves, &mut failed);
                collect_failed(&out.enters, &mut failed);
                if !out.snapshot.ok {
                    failed.push(out.snapshot.to);
                }
                WorldOutcome::Login(out)
            }
            WorldMessage::PlayerLogout => {
                let r = self.disconnect_player(player_id);
                collect_failed(&r.leaves, &mut failed);
                WorldOutcome::Logout(r)
            }
            WorldMessage::PlayerMove(st) => {
                match self.move_player(player_id, st) {
                    Ok(out) => {
                        collect_failed(&out.leaves, &mut failed);
                        collect_failed(&out.enters, &mut failed);
                        collect_failed(&out.moves, &mut failed);
                        WorldOutcome::Moved(out)
                    }
                    Err(e) => WorldOutcome::MoveRefused(e),
                }
            }
        };
        let ghost mid = *self;
        let mut removed: Vec<PlayerRemoval> = Vec::new();
        let mut live = self.filter_registered(&failed);
        if live.len() > 0 {
            while live.len() > 0
                invariant
                    self.wf(),
                    self.config == old(self).config,
                    self.world_id == old(self).world_id,
                    forall|i: int| 0 <= i < live@.len() ==> self.registered(#[trigger] live@[i]),
                    forall|id: i32| #[trigger] self.registered(id) ==> {
                        &&& mid.registered(id)
                        &&& self.state_of(id) == mid.state_of(id)
                        &&& self.cell_of_player(id) == mid.cell_of_player(id)
                        &&& self.sessions@[id] == mid.sessions@[id]
                    },
                    forall|i: int| 0 <= i < removed@.len()
                        ==> !self.registered((#[trigger] removed@[i]).player_id),
                decreases self.sessions.seq().len(),
            {
                proof {
                    assert(self.registered(live@[0]));
                }
                let ghost pre = *self;
                let batch = live;
                let ghost batch_view = batch@;
                let mut outs = self.remove_players(batch);
                let mut next_failed: Vec<i32> = Vec::new();
                let n = outs.len();
                let mut k: usize = 0;
                while k < n
                    invariant
                        k <= n,
                        n == outs@.len(),
                    decreases n - k,
                {
                    collect_failed(&outs[k].leaves, &mut next_failed);
                    k = k + 1;
                }
                proof {
                    assert forall|i: int| 0 <= i < removed@.len()
                        implies !self.registered((#[trigger] removed@[i]).player_id) by {
                        assert(!pre.registered(removed@[i].player_id));
                    }
                    assert forall|i: int| 0 <= i < outs@.len()
                        implies batch_view.contains((#[trigger] outs@[i]).player_id) by {
                        assert(outs@[i].player_id == batch_view[i]);
                        assert(batch_view.contains(batch_view[i]));
                    }
                }
                loop
                    invariant
                        self.wf(),
                        forall|i: int| 0 <= i < outs@.len()
                            ==> batch_view.contains((#[trigger] outs@[i]).player_id),
                        forall|id: i32| #[trigger] self.registered(id)
                            ==> !batch_view.contains(id),
                        forall|i: int| 0 <= i < removed@.len()
                            ==> !self.registered((#[trigger] removed@[i]).player_id),
                    decreases outs@.len(),
                {
                    match outs.pop() {
                        Some(r) => {
                            removed.push(r);
                        }
                        None => {
                            break;
                        }
                    }
                }
                live = self.filter_registered(&next_failed);
            }
        }
        proof {
            match gmsg.message {
                WorldMessage::PlayerLogin(data) => {
                    assert(mid.sessions@[gmsg.player_id] == data.sender);
                    assert forall|id: i32| #[trigger] self.registered(id) implies {
                        &&& (id == gmsg.player_id ==> self.state_of(id) == data.state
                            && self.sessions@[id] == data.sender)
                        &&& (id != gmsg.player_id ==> old(self).registered(id)
                            && self.state_of(id) == old(self).state_of(id))
                    } by {
                        assert(mid.registered(id));
                    }
                }
                WorldMessage::PlayerLogout => {
                    assert forall|id: i32| #[trigger] self.registered(id)
                        implies old(self).registered(id)
                            && self.state_of(id) == old(self).state_of(id) by {
                        assert(mid.registered(id));
                    }
                }
                WorldMessage::PlayerMove(st) => {
                    assert forall|id: i32| id != gmsg.player_id
                        && #[trigger] self.registered(id) implies old(self).registered(id)
                            && self.state_of(id) == old(self).state_of(id) by {
                        assert(mid.registered(id));
                    }
                    if self.registered(gmsg.player_id) {
                        assert(mid.registered(gmsg.player_id));
                    }
                }
            }
        }
        WorldStep { outcome, removed }
    }
}

/// Dispatch a login command into the world: the full login flow of
/// `World::add_player`, with its complete contract.
pub fn handle_player_login(
    world: &mut World,
    player_id: i32,
    player_login_data: PlayerLoginData,
) -> (out: LoginOut)
    requires
        old(world).wf(),
    ensures
        final(world).wf(),
        final(world).config == old(world).config,
        final(world).world_id == old(world).world_id,
        final(world).registered(player_id),
        final(world).state_of(player_id) == player_login_data.state,
        final(world).cell_of_player(player_id) == spec_cell_of(
            player_login_data.state.player_state.x as int,
            player_login_data.state.player_state.y as int,
            old(world).config.cell_size as int,
        ),
        final(world).player_grid@ == old(world).player_grid@.insert(
            player_id,
            spec_cell_of(
                player_login_data.state.player_state.x as int,
                player_login_data.state.player_state.y as int,
                old(world).config.cell_size as int,
            ),
        ),
        final(world).sessions@ == old(world).sessions@.insert(player_id,
            player_login_data.sender),
        forall|id2: i32| id2 != player_id ==> #[trigger] final(world).registered(id2)
            == old(world).registered(id2),
        forall|id2: i32| id2 != player_id && old(world).registered(id2) ==> {
            &&& #[trigger] final(world).state_of(id2) == old(world).state_of(id2)
            &&& final(world).cell_of_player(id2) == old(world).cell_of_player(id2)
        },
        out.evicted.player_id == player_id,
        (out.evicted.kicked is Some) == old(world).registered(player_id),
        (match out.evicted.kicked {
            Some(d) => d.to == player_id,
            None => true,
        }),
        forall|id2: i32| #[trigger] tos(out.evicted.leaves@).contains(id2) == (
            old(world).registered(player_id) && old(world).selected(
                id2,
                old(world).view_of(player_id),
                None,
                Some(player_id),
            )),
        tos_distinct(out.evicted.leaves@),
        forall|id2: i32| #[trigger] tos(out.enters@).contains(id2)
            == final(world).selected(id2, final(world).view_of(player_id), None, None),
        tos_distinct(out.enters@),
        out.snapshot.to == player_id,
        forall|id2: i32| #[trigger] presence_ids(out.presence@).contains(id2)
            == final(world).selected(id2, final(world).view_of(player_id), None,
                Some(player_id)),
        forall|i: int| 0 <= i < out.presence@.len() ==> {
            let e = #[trigger] out.presence@[i];
            &&& final(world).registered(e.player_id)
            &&& e.state == final(world).state_of(e.player_id).player_state
            &&& e.color == final(world).state_of(e.player_id).color
        },
        forall|i: int, j: int| 0 <= i < j < out.presence@.len()
            ==> out.presence@[i].player_id != out.presence@[j].player_id,
{
    world.add_player(player_id, player_login_data)
}

/// Dispatch a move command into the world: the full move flow of
/// `World::move_player`, with its complete contract.
pub fn handle_player_move(world: &mut World, player_id: i32, state: PlayerState) -> (r: Result<
    MoveOut,
    WorldError,
>)
    requires
        old(world).wf(),
    ensures
        final(world).wf(),
        final(world).config == old(world).config,
        final(world).world_id == old(world).world_id,
        final(world).sessions == old(world).sessions,
        (r is Err) == !old(world).registered(player_id),
        match r {
            Err(e) => e == WorldError::SessionLookup && *final(world) == *old(world),
            Ok(out) => {
                let old_cell = old(world).cell_of_player(player_id);
                let new_cell = spec_cell_of(state.x as int, state.y as int,
                    old(world).config.cell_size as int);
                let old_view = spec_aoi_rect(old_cell, old(world).config);
                let new_view = spec_aoi_rect(new_cell, old(world).config);
                &&& final(world).registered(player_id)
                &&& final(world).state_of(player_id) == (State {
                    player_state: state,
                    color: old(world).state_of(player_id).color,
                })
                &&& final(world).cell_of_player(player_id) == new_cell
                &&& final(world).player_grid@ == old(world).player_grid@.insert(player_id,
                    new_cell)
                &&& (forall|id2: i32| id2 != player_id
                    ==> #[trigger] final(world).registered(id2) == old(world).registered(id2))
                &&& (forall|id2: i32| id2 != player_id && old(world).registered(id2) ==> {
                    &&& #[trigger] final(world).state_of(id2) == old(world).state_of(id2)
                    &&& final(world).cell_of_player(id2) == old(world).cell_of_player(id2)
                })
                &&& (forall|id2: i32| #[trigger] tos(out.leaves@).contains(id2)
                    == final(world).selected(id2, old_view, Some(new_view), None))
                &&& (forall|id2: i32| #[trigger] tos(out.enters@).contains(id2)
                    == final(world).selected(id2, new_view, Some(old_view), None))
                &&& (forall|id2: i32| #[trigger] tos(out.moves@).contains(id2)
                    == final(world).selected(id2, new_view, None, None))
                &&& tos_distinct(out.leaves@)
                &&& tos_distinct(out.enters@)
                &&& tos_distinct(out.moves@)
            }
        },
{
    world.move_player(player_id, state)
}


/// Law (idempotence): announcing a presence a second time duplicates
/// nothing. A player found in two cell buckets is in one and the same cell —
/// the one the registry holds it in — so re-adding an entry can never leave
/// two copies behind.
pub proof fn lemma_presence_unique(w: World, id: i32, c1: CellId, c2: CellId)
    requires
        w.wf_core(),
        w.grid_players(c1).dom().contains(id),
        w.grid_players(c2).dom().contains(id),
    ensures
        c1 == c2,
        c1 == w.cell_of_player(id),
{
}

/// Law (idempotence): a login repeated with the identical id and record is
/// absorbed. Given a world `wa` that already holds `(id, st)` and a world
/// `wb` related to `wa` exactly as `add_player`'s contract relates its final
/// state to its initial one, every player's registration, record and cell in
/// `wb` equal those in `wa`.
pub proof fn lemma_relogin_idempotent(wa: World, wb: World, id: i32, st: State)
    requires
        wa.wf(),
        wb.wf(),
        wa.registered(id),
        wa.state_of(id) == st,
        wb.config == wa.config,
        wb.player_grid@ == wa.player_grid@.insert(
            id,
            spec_cell_of(st.player_state.x as int, st.player_state.y as int,
                wa.config.cell_size as int),
        ),
        wb.state_of(id) == st,
        forall|id2: i32| id2 != id ==> #[trigger] wb.registered(id2) == wa.registered(id2),
        forall|id2: i32| id2 != id && wa.registered(id2) ==> {
            &&& #[trigger] wb.state_of(id2) == wa.state_of(id2)
            &&& wb.cell_of_player(id2) == wa.cell_of_player(id2)
        },
    ensures
        wb.player_grid@ == wa.player_grid@,
        forall|id2: i32| #[trigger] wb.registered(id2) == wa.registered(id2),
        forall|id2: i32| #[trigger] wb.registered(id2) ==> {
            &&& wb.state_of(id2) == wa.state_of(id2)
            &&& wb.cell_of_player(id2) == wa.cell_of_player(id2)
        },
{
    let c = spec_cell_of(st.player_state.x as int, st.player_state.y as int,
        wa.config.cell_size as int);
    assert(wa.cell_of_player(id) == c);
    assert(wa.player_grid@.insert(id, c) =~= wa.player_grid@);
}


/// Law (grid/registry consistency): every registered player is stored in
/// exactly the cell derived from its own position, and that cell's bucket
/// holds its authoritative record.
pub proof fn lemma_grid_registry_consistent(w: World, id: i32)
    requires
        w.wf_core(),
        w.registered(id),
    ensures
        w.cell_of_player(id) == spec_cell_of(
            w.state_of(id).player_state.x as int,
            w.state_of(id).player_state.y as int,
            w.config.cell_size as int,
        ),
        w.grid_players(w.cell_of_player(id)).dom().contains(id),
        w.grid_players(w.cell_of_player(id))[id] == w.state_of(id),
{
}

/// Law (view symmetry): for a settled pair of registered players whose
/// cells are inside the world bounds, B's cell is in A's AOI view exactly
/// when the radius predicate holds, and A's cell is then in B's view too.
pub proof fn lemma_view_symmetry(w: World, a: i32, b: i32)
    requires
        w.wf_core(),
        w.registered(a),
        w.registered(b),
        in_bounds(w.cell_of_player(a), w.config),
        in_bounds(w.cell_of_player(b), w.config),
    ensures
        w.view_of(a).spec_contains(w.cell_of_player(b)) == in_radius(
            w.cell_of_player(a),
            w.cell_of_player(b),
            w.config.h as int,
            w.config.v as int,
        ),
        w.view_of(a).spec_contains(w.cell_of_player(b))
            == w.view_of(b).spec_contains(w.cell_of_player(a)),
{
    lemma_aoi_symmetry(w.cell_of_player(a), w.cell_of_player(b), w.config);
}

} // verus!





