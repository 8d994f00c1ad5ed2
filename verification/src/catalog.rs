//! The catalog of protoboard templates.
//!
//! Templates are grouped by a tile-count class `t`; within a group they
//! keep the order in which the source listed them, under the template ID
//! the source gave them (IDs are only locally meaningful and need not be
//! unique).  The catalog keeps its groups sorted by strictly increasing
//! `t`, and never holds an empty group.
//!
//! Global IDs are a derived numbering: group ranges follow one another in
//! ascending `t` order, starting at 1.

use vstd::prelude::*;

verus! {

/// Mathematical model of one template: its local ID and its grid rows.
pub ghost struct BoardModel {
    pub id: int,
    pub rows: Seq<Seq<char>>,
}

/// Mathematical model of one `t`-group.
pub ghost struct GroupModel {
    pub t: int,
    pub boards: Seq<BoardModel>,
}

/// One protoboard template: its local ID and its grid of 'X'/'.' cells.
pub struct Board {
    pub id: usize,
    pub rows: Vec<Vec<char>>,
}

/// All templates of one tile-count class, in source order.
pub struct Group {
    pub t: u32,
    pub boards: Vec<Board>,
}

/// The whole catalog: groups sorted by strictly increasing `t`.
pub struct Catalog {
    pub groups: Vec<Group>,
}

impl View for Board {
    type V = BoardModel;

    open spec fn view(&self) -> BoardModel {
        BoardModel { id: self.id as int, rows: self.rows.deep_view() }
    }
}

impl DeepView for Board {
    type V = BoardModel;

    open spec fn deep_view(&self) -> BoardModel {
        self.view()
    }
}

impl View for Group {
    type V = GroupModel;

    open spec fn view(&self) -> GroupModel {
        GroupModel { t: self.t as int, boards: self.boards.deep_view() }
    }
}

impl DeepView for Group {
    type V = GroupModel;

    open spec fn deep_view(&self) -> GroupModel {
        self.view()
    }
}

impl View for Catalog {
    type V = Seq<GroupModel>;

    open spec fn view(&self) -> Seq<GroupModel> {
        self.groups.deep_view()
    }
}

/// Catalog shape invariant: groups strictly sorted by `t`, none empty,
/// and every `t` and template ID within machine range.
pub open spec fn wf_groups(gs: Seq<GroupModel>) -> bool {
    &&& forall|i: int, j: int| 0 <= i < j < gs.len() ==> #[trigger] gs[i].t < #[trigger] gs[j].t
    &&& forall|i: int| 0 <= i < gs.len() ==> #[trigger] gs[i].boards.len() > 0
    &&& forall|i: int| 0 <= i < gs.len() ==> 0 <= #[trigger] gs[i].t <= u32::MAX
    &&& forall|i: int, j: int|
        0 <= i < gs.len() && 0 <= j < gs[i].boards.len() ==> 0 <= (
        #[trigger] gs[i].boards[j]).id <= usize::MAX
}

/// Index of the first group whose class is `t`, if one exists.
pub open spec fn first_group_with_t(gs: Seq<GroupModel>, t: int) -> Option<int>
    decreases gs.len(),
{
    if gs.len() == 0 {
        None
    } else if gs[0].t == t {
        Some(0)
    } else {
        match first_group_with_t(gs.drop_first(), t) {
            Some(i) => Some(i + 1),
            None => None,
        }
    }
}

/// Characterizes `first_group_with_t` from a scan that found no match
/// before index `i`.
pub proof fn lemma_first_group_char(gs: Seq<GroupModel>, t: int, i: int)
    requires
        0 <= i <= gs.len(),
        forall|k: int| 0 <= k < i ==> (#[trigger] gs[k]).t != t,
    ensures
        i < gs.len() && gs[i].t == t ==> first_group_with_t(gs, t) == Some(i),
        i == gs.len() ==> first_group_with_t(gs, t) is None,
    decreases i,
{
    if gs.len() == 0 {
    } else if i == 0 {
        if gs[0].t != t {
        }
    } else {
        lemma_first_group_char(gs.drop_first(), t, i - 1);
    }
}

/// A found group index is in range and holds `t`.
pub proof fn lemma_first_group_in_range(gs: Seq<GroupModel>, t: int)
    requires
        first_group_with_t(gs, t) is Some,
    ensures
        0 <= first_group_with_t(gs, t)->0 < gs.len(),
        gs[first_group_with_t(gs, t)->0].t == t,
    decreases gs.len(),
{
    if gs.len() > 0 && gs[0].t != t {
        lemma_first_group_in_range(gs.drop_first(), t);
    }
}

/// Index of the first board in `bs` whose template ID is `id`.
pub open spec fn first_board_with_id(bs: Seq<BoardModel>, id: int) -> Option<int>
    decreases bs.len(),
{
    if bs.len() == 0 {
        None
    } else if bs[0].id == id {
        Some(0)
    } else {
        match first_board_with_id(bs.drop_first(), id) {
            Some(i) => Some(i + 1),
            None => None,
        }
    }
}

/// Characterizes `first_board_with_id` from a scan that found no match
/// before index `i`.
pub proof fn lemma_first_board_char(bs: Seq<BoardModel>, id: int, i: int)
    requires
        0 <= i <= bs.len(),
        forall|k: int| 0 <= k < i ==> (#[trigger] bs[k]).id != id,
    ensures
        i < bs.len() && bs[i].id == id ==> first_board_with_id(bs, id) == Some(i),
        i == bs.len() ==> first_board_with_id(bs, id) is None,
    decreases i,
{
    if bs.len() == 0 {
    } else if i == 0 {
    } else {
        lemma_first_board_char(bs.drop_first(), id, i - 1);
    }
}

/// A found board index is in range and holds `id`.
pub proof fn lemma_first_board_in_range(bs: Seq<BoardModel>, id: int)
    requires
        first_board_with_id(bs, id) is Some,
    ensures
        0 <= first_board_with_id(bs, id)->0 < bs.len(),
        bs[first_board_with_id(bs, id)->0].id == id,
    decreases bs.len(),
{
    if bs.len() > 0 && bs[0].id != id {
        lemma_first_board_in_range(bs.drop_first(), id);
    }
}

/// Number of templates held by the first `i` groups.
pub open spec fn boards_before(gs: Seq<GroupModel>, i: int) -> nat
    decreases i,
{
    if i <= 0 {
        0
    } else {
        boards_before(gs, i - 1) + gs[i - 1].boards.len()
    }
}

/// Total number of templates in the catalog.
pub open spec fn total_boards(gs: Seq<GroupModel>) -> nat {
    boards_before(gs, gs.len() as int)
}

/// First global ID of the group at index `i`.
pub open spec fn start_id_of(gs: Seq<GroupModel>, i: int) -> int {
    1 + boards_before(gs, i) as int
}

/// Last global ID of the group at index `i`.
pub open spec fn end_id_of(gs: Seq<GroupModel>, i: int) -> int {
    start_id_of(gs, i) + gs[i].boards.len() - 1
}

/// `boards_before` grows with the group index.
pub proof fn lemma_boards_before_mono(gs: Seq<GroupModel>, i: int, j: int)
    requires
        0 <= i <= j <= gs.len(),
    ensures
        boards_before(gs, i) <= boards_before(gs, j),
    decreases j - i,
{
    if i < j {
        lemma_boards_before_mono(gs, i, j - 1);
    }
}

/// The global-ID range invariant: every group's range starts at one more
/// than the number of templates in all earlier (smaller-`t`) groups, each
/// range is non-empty, successive ranges are contiguous, and the ranges of
/// distinct groups never overlap.  The numbering starts at 1.
pub proof fn lemma_global_id_ranges(gs: Seq<GroupModel>)
    requires
        wf_groups(gs),
    ensures
        start_id_of(gs, 0) == 1,
        forall|i: int|
            0 <= i < gs.len() ==> #[trigger] start_id_of(gs, i) <= end_id_of(gs, i),
        forall|i: int|
            0 <= i < gs.len() - 1 ==> #[trigger] end_id_of(gs, i) + 1 == start_id_of(gs, i + 1),
        forall|i: int, j: int|
            0 <= i < j < gs.len() ==> #[trigger] end_id_of(gs, i) < #[trigger] start_id_of(gs, j),
{
    assert forall|i: int, j: int| 0 <= i < j < gs.len() implies #[trigger] end_id_of(gs, i)
        < #[trigger] start_id_of(gs, j) by {
        lemma_boards_before_mono(gs, i + 1, j);
    }
}

impl Catalog {
    /// The catalog shape invariant.
    pub open spec fn wf(&self) -> bool {
        wf_groups(self@)
    }

    /// The distinct `t`-values present, in ascending order.
    pub fn t_values(&self) -> (ts: Vec<u32>)
        requires
            self.wf(),
        ensures
            ts@.len() == self@.len(),
            forall|i: int| 0 <= i < ts@.len() ==> #[trigger] ts@[i] == self@[i].t,
            forall|i: int, j: int| 0 <= i < j < ts@.len() ==> ts@[i] < ts@[j],
    {
        let mut ts: Vec<u32> = Vec::new();
        let mut i: usize = 0;
        while i < self.groups.len()
            invariant
                0 <= i <= self.groups@.len(),
                self@.len() == self.groups@.len(),
                ts@.len() == i,
                forall|k: int| 0 <= k < i ==> #[trigger] ts@[k] == self@[k].t,
            decreases self.groups@.len() - i,
        {
            ts.push(self.groups[i].t);
            i = i + 1;
        }
        ts
    }

    /// Index of the group whose class is `t`, if `t` is a catalog key.
    pub fn find_group(&self, t: u32) -> (r: Option<usize>)
        ensures
            match r {
                Some(i) => first_group_with_t(self@, t as int) == Some(i as int),
                None => first_group_with_t(self@, t as int) is None,
            },
    {
        let mut i: usize = 0;
        while i < self.groups.len()
            invariant
                0 <= i <= self.groups@.len(),
                self@.len() == self.groups@.len(),
                forall|k: int| 0 <= k < i ==> (#[trigger] self@[k]).t != t as int,
            decreases self.groups@.len() - i,
        {
            if self.groups[i].t == t {
                proof {
                    lemma_first_group_char(self@, t as int, i as int);
                }
                return Some(i);
            }
            i = i + 1;
        }
        proof {
            lemma_first_group_char(self@, t as int, i as int);
        }
        None
    }

    /// The global-ID range `[start, end]` of the group holding class `t`:
    /// the IDs displayed for the group, starting one past the total count
    /// of templates in all smaller-`t` groups.
    pub fn id_range(&self, t: u32) -> (r: Option<(usize, usize)>)
        requires
            self.wf(),
            total_boards(self@) <= usize::MAX,
        ensures
            match r {
                Some(se) => {
                    &&& first_group_with_t(self@, t as int) is Some
                    &&& se.0 == start_id_of(self@, first_group_with_t(self@, t as int)->0)
                    &&& se.1 == end_id_of(self@, first_group_with_t(self@, t as int)->0)
                },
                None => first_group_with_t(self@, t as int) is None,
            },
    {
        let gi = match self.find_group(t) {
            Some(gi) => gi,
            None => {
                return None;
            },
        };
        proof {
            lemma_first_group_in_range(self@, t as int);
        }
        let mut sum: usize = 0;
        let mut k: usize = 0;
        while k < gi
            invariant
                0 <= k <= gi < self.groups@.len(),
                self@.len() == self.groups@.len(),
                self.wf(),
                total_boards(self@) <= usize::MAX,
                sum == boards_before(self@, k as int),
            decreases gi - k,
        {
            proof {
                lemma_boards_before_mono(self@, k + 1, self@.len() as int);
                assert(self@[k as int].boards == self.groups@[k as int].boards.deep_view());
            }
            sum = sum + self.groups[k].boards.len();
            k = k + 1;
        }
        proof {
            lemma_boards_before_mono(self@, gi + 1, self@.len() as int);
            assert(self@[gi as int].boards == self.groups@[gi as int].boards.deep_view());
        }
        let count = self.groups[gi].boards.len();
        Some((sum + 1, sum + count))
    }

    /// Index, within group `gi`, of the first template whose local ID is
    /// `id` — the lookup the selector performs on the user's "global ID"
    /// input (it matches the locally scoped template ID, not the displayed
    /// global range).
    pub fn find_board(&self, gi: usize, id: usize) -> (r: Option<usize>)
        requires
            gi < self@.len(),
        ensures
            match r {
                Some(bi) => first_board_with_id(self@[gi as int].boards, id as int) == Some(
                    bi as int,
                ),
                None => first_board_with_id(self@[gi as int].boards, id as int) is None,
            },
    {
        let ghost bs = self@[gi as int].boards;
        let group = &self.groups[gi];
        proof {
            assert(bs == group.boards.deep_view());
        }
        let mut i: usize = 0;
        while i < group.boards.len()
            invariant
                0 <= i <= group.boards@.len(),
                gi < self@.len(),
                bs == self@[gi as int].boards,
                bs == group.boards.deep_view(),
                bs.len() == group.boards@.len(),
                forall|k: int| 0 <= k < i ==> (#[trigger] bs[k]).id != id as int,
            decreases group.boards@.len() - i,
        {
            if group.boards[i].id == id {
                proof {
                    lemma_first_board_char(bs, id as int, i as int);
                }
                return Some(i);
            }
            i = i + 1;
        }
        proof {
            lemma_first_board_char(bs, id as int, i as int);
        }
        None
    }
}

} // verus!
