//! The catalog loader: turns the lines of a protoboard source text into a
//! `Catalog`.
//!
//! The format is line-oriented and order-sensitive.  A line containing
//! "Boards with t =" opens a new `t`-group; a line starting with "Board #"
//! opens a new template record; any other line contributes a grid row made
//! of its 'X' and '.' characters, if it has any.  Opening a new group or
//! record first flushes the template accumulated so far, and so does the
//! end of the input.  A header whose number does not parse leaves the
//! current `t` (or template ID) unchanged.

use vstd::prelude::*;
use crate::catalog::{Board, BoardModel, Catalog, Group, GroupModel, wf_groups};
use crate::numbers::{parse_u32_spec, parse_usize_spec, parse_u32_chars, parse_usize_chars};
use crate::text::{contains_at, contains_seq, contains_pattern, starts_with_pattern, copy_range,
    find_char, first_index_from, lemma_first_index_in_range, row_of_line, extract_row, spec_trim,
    trim_chars, token_to_space, take_token};

verus! {

/// The marker that opens a `t`-group: "Boards with t =".
pub open spec fn marker_seq() -> Seq<char> {
    seq!['B', 'o', 'a', 'r', 'd', 's', ' ', 'w', 'i', 't', 'h', ' ', 't', ' ', '=']
}

/// The prefix that opens a template record: "Board #".
pub open spec fn board_prefix_seq() -> Seq<char> {
    seq!['B', 'o', 'a', 'r', 'd', ' ', '#']
}

/// A line that opens a new `t`-group.
pub open spec fn spec_is_theader(line: Seq<char>) -> bool {
    contains_seq(line, marker_seq())
}

/// A line that opens a new template record (only decided on lines that are
/// not `t`-group headers).
pub open spec fn spec_is_bheader(line: Seq<char>) -> bool {
    contains_at(line, board_prefix_seq(), 0)
}

/// The `t`-value of a group header: the text between the first '=' and the
/// next '=' (or the end of the line), trimmed, cut at its first space, and
/// parsed as a `u32`.
pub open spec fn spec_theader_t(line: Seq<char>) -> Option<u32> {
    match first_index_from(line, '=', 0) {
        None => None,
        Some(p) => {
            let end = match first_index_from(line, '=', p + 1) {
                Some(q) => q,
                None => line.len() as int,
            };
            parse_u32_spec(token_to_space(spec_trim(line.subrange(p + 1, end))))
        },
    }
}

/// The template ID of a record header: the text between the first '#' and
/// the next '#' (or the end of the line), cut at its first space, and
/// parsed as a `usize`.
pub open spec fn spec_bheader_id(line: Seq<char>) -> Option<usize> {
    match first_index_from(line, '#', 0) {
        None => None,
        Some(p) => {
            let end = match first_index_from(line, '#', p + 1) {
                Some(q) => q,
                None => line.len() as int,
            };
            parse_usize_spec(token_to_space(line.subrange(p + 1, end)))
        },
    }
}

/// Loader state after some prefix of the input lines: the groups flushed
/// so far, the current `t` and template ID, and the rows accumulated for
/// the template still in progress.
pub ghost struct LoadState {
    pub groups: Seq<GroupModel>,
    pub cur_t: int,
    pub cur_id: int,
    pub cur_rows: Seq<Seq<char>>,
}

/// Position at which a group of class `t` sits or would be inserted to
/// keep the groups sorted: the first index holding a class >= `t`.
pub open spec fn insert_pos(gs: Seq<GroupModel>, t: int) -> int
    decreases gs.len(),
{
    if gs.len() == 0 {
        0
    } else if gs[0].t >= t {
        0
    } else {
        1 + insert_pos(gs.drop_first(), t)
    }
}

/// Characterizes `insert_pos` from a scan that passed all smaller classes.
pub proof fn lemma_insert_pos_char(gs: Seq<GroupModel>, t: int, i: int)
    requires
        0 <= i <= gs.len(),
        forall|k: int| 0 <= k < i ==> (#[trigger] gs[k]).t < t,
        i == gs.len() || gs[i].t >= t,
    ensures
        insert_pos(gs, t) == i,
    decreases i,
{
    if gs.len() == 0 {
    } else if i == 0 {
    } else {
        lemma_insert_pos_char(gs.drop_first(), t, i - 1);
    }
}

/// A finished template joins its group: appended to the group of its class
/// if one exists, else a new group is inserted at the position that keeps
/// the classes sorted.
pub open spec fn spec_push_board(gs: Seq<GroupModel>, t: int, id: int, rows: Seq<Seq<char>>) -> Seq<
    GroupModel,
> {
    let b = BoardModel { id, rows };
    let i = insert_pos(gs, t);
    if i < gs.len() && gs[i].t == t {
        gs.update(i, GroupModel { t, boards: gs[i].boards.push(b) })
    } else {
        gs.insert(i, GroupModel { t, boards: seq![b] })
    }
}

/// Flushing: a template with no accumulated rows is not recorded.
pub open spec fn spec_flush_parts(gs: Seq<GroupModel>, t: int, id: int, rows: Seq<Seq<char>>) -> Seq<
    GroupModel,
> {
    if rows.len() == 0 {
        gs
    } else {
        spec_push_board(gs, t, id, rows)
    }
}

/// The loader's transition on one input line.
pub open spec fn spec_step(st: LoadState, line: Seq<char>) -> LoadState {
    if spec_is_theader(line) {
        LoadState {
            groups: spec_flush_parts(st.groups, st.cur_t, st.cur_id, st.cur_rows),
            cur_t: match spec_theader_t(line) {
                Some(v) => v as int,
                None => st.cur_t,
            },
            cur_id: st.cur_id,
            cur_rows: Seq::empty(),
        }
    } else if spec_is_bheader(line) {
        LoadState {
            groups: spec_flush_parts(st.groups, st.cur_t, st.cur_id, st.cur_rows),
            cur_t: st.cur_t,
            cur_id: match spec_bheader_id(line) {
                Some(v) => v as int,
                None => st.cur_id,
            },
            cur_rows: Seq::empty(),
        }
    } else {
        let row = row_of_line(line);
        if row.len() > 0 {
            LoadState {
                groups: st.groups,
                cur_t: st.cur_t,
                cur_id: st.cur_id,
                cur_rows: st.cur_rows.push(row),
            }
        } else {
            st
        }
    }
}

/// Loader state after all the given lines, from the initial state
/// (no groups, `t` and template ID both 0, no rows accumulated).
pub open spec fn spec_load(lines: Seq<Seq<char>>) -> LoadState
    decreases lines.len(),
{
    if lines.len() == 0 {
        LoadState { groups: Seq::empty(), cur_t: 0, cur_id: 0, cur_rows: Seq::empty() }
    } else {
        spec_step(spec_load(lines.drop_last()), lines.last())
    }
}

/// The catalog read from the given lines: the state after all lines, with
/// the template still in progress flushed.
pub open spec fn spec_parse_catalog(lines: Seq<Seq<char>>) -> Seq<GroupModel> {
    let st = spec_load(lines);
    spec_flush_parts(st.groups, st.cur_t, st.cur_id, st.cur_rows)
}

/// Builds the group-header marker "Boards with t =".
fn marker_pattern() -> (r: Vec<char>)
    ensures
        r@ == marker_seq(),
{
    let mut v: Vec<char> = Vec::new();
    v.push('B');
    v.push('o');
    v.push('a');
    v.push('r');
    v.push('d');
    v.push('s');
    v.push(' ');
    v.push('w');
    v.push('i');
    v.push('t');
    v.push('h');
    v.push(' ');
    v.push('t');
    v.push(' ');
    v.push('=');
    proof {
        assert(v@ =~= marker_seq());
    }
    v
}

/// Builds the record-header prefix "Board #".
fn board_prefix_pattern() -> (r: Vec<char>)
    ensures
        r@ == board_prefix_seq(),
{
    let mut v: Vec<char> = Vec::new();
    v.push('B');
    v.push('o');
    v.push('a');
    v.push('r');
    v.push('d');
    v.push(' ');
    v.push('#');
    proof {
        assert(v@ =~= board_prefix_seq());
    }
    v
}

/// Appends the finished template to the catalog under class `t`, keeping
/// the groups sorted and well-formed.
fn push_board_into(groups: &mut Vec<Group>, t: u32, id: usize, rows: Vec<Vec<char>>)
    requires
        wf_groups(old(groups).deep_view()),
    ensures
        final(groups).deep_view() == spec_push_board(
            old(groups).deep_view(),
            t as int,
            id as int,
            rows.deep_view(),
        ),
        wf_groups(final(groups).deep_view()),
{
    let ghost gs0 = groups.deep_view();
    let ghost rows_dv = rows.deep_view();
    let ghost bm = BoardModel { id: id as int, rows: rows_dv };
    let n = groups.len();
    let mut i: usize = 0;
    while i < n && groups[i].t < t
        invariant
            0 <= i <= n == groups@.len(),
            gs0 == groups.deep_view(),
            forall|k: int| 0 <= k < i ==> (#[trigger] gs0[k]).t < t as int,
        decreases n - i,
    {
        i = i + 1;
    }
    proof {
        lemma_insert_pos_char(gs0, t as int, i as int);
    }
    let b = Board { id, rows };
    proof {
        assert(b@.rows =~= rows_dv);
        assert(b@ == bm);
    }
    if i < n && groups[i].t == t {
        let ghost gm = GroupModel { t: t as int, boards: gs0[i as int].boards.push(bm) };
        let mut g = groups.remove(i);
        g.boards.push(b);
        groups.insert(i, g);
        proof {
            assert(g.boards.deep_view() =~= gs0[i as int].boards.push(bm));
            assert(g@ == gm);
            assert(groups.deep_view() =~= gs0.update(i as int, gm));
            assert(wf_groups(groups.deep_view()));
        }
    } else {
        let mut bs: Vec<Board> = Vec::new();
        bs.push(b);
        let g = Group { t, boards: bs };
        let ghost gm = GroupModel { t: t as int, boards: seq![bm] };
        proof {
            assert(g.boards.deep_view() =~= seq![bm]);
            assert(g@ == gm);
        }
        groups.insert(i, g);
        proof {
            assert(groups.deep_view() =~= gs0.insert(i as int, gm));
            assert forall|p: int, q: int|
                0 <= p < q < groups.deep_view().len() implies (#[trigger] groups.deep_view()[p]).t
                < (#[trigger] groups.deep_view()[q]).t by {
                let gs1 = groups.deep_view();
                if q == i {
                    assert(gs1[p] == gs0[p]);
                } else if p == i {
                    assert(gs1[q] == gs0[q - 1]);
                    assert(q - 1 >= i);
                    if q - 1 == i {
                        assert(gs0[i as int].t > t as int);
                    } else {
                        assert(gs0[i as int].t < gs0[q - 1].t);
                        assert(gs0[i as int].t >= t as int);
                    }
                } else if p < i && q > i {
                    assert(gs1[p] == gs0[p]);
                    assert(gs1[q] == gs0[q - 1]);
                }
            }
            assert(wf_groups(groups.deep_view()));
        }
    }
}

/// Flushes the template in progress, if it has any rows.
fn flush_board(groups: &mut Vec<Group>, t: u32, id: usize, rows: Vec<Vec<char>>)
    requires
        wf_groups(old(groups).deep_view()),
    ensures
        final(groups).deep_view() == spec_flush_parts(
            old(groups).deep_view(),
            t as int,
            id as int,
            rows.deep_view(),
        ),
        wf_groups(final(groups).deep_view()),
{
    if rows.len() > 0 {
        push_board_into(groups, t, id, rows);
    }
}

/// Parses the lines of a protoboard source text into the catalog.
pub fn parse_protoboards(lines: &Vec<Vec<char>>) -> (catalog: Catalog)
    ensures
        catalog@ == spec_parse_catalog(lines.deep_view()),
        catalog.wf(),
{
    let ghost linesv = lines.deep_view();
    let marker = marker_pattern();
    let bprefix = board_prefix_pattern();
    let mut groups: Vec<Group> = Vec::new();
    let mut cur_t: u32 = 0;
    let mut cur_id: usize = 0;
    let mut cur_rows: Vec<Vec<char>> = Vec::new();
    let mut i: usize = 0;
    while i < lines.len()
        invariant
            0 <= i <= lines@.len(),
            linesv == lines.deep_view(),
            marker@ == marker_seq(),
            bprefix@ == board_prefix_seq(),
            wf_groups(groups.deep_view()),
            ({
                let st = spec_load(linesv.subrange(0, i as int));
                &&& groups.deep_view() == st.groups
                &&& cur_t as int == st.cur_t
                &&& cur_id as int == st.cur_id
                &&& cur_rows.deep_view() == st.cur_rows
            }),
        decreases lines@.len() - i,
    {
        let ghost st = spec_load(linesv.subrange(0, i as int));
        let line = &lines[i];
        proof {
            assert(linesv.subrange(0, i + 1).drop_last() =~= linesv.subrange(0, i as int));
            assert(linesv.subrange(0, i + 1).last() == linesv[i as int]);
            assert(linesv[i as int] =~= line@);
        }
        let ghost linev = line@;
        let llen = line.len();
        if contains_pattern(line, &marker) {
            let finished = cur_rows;
            cur_rows = Vec::new();
            flush_board(&mut groups, cur_t, cur_id, finished);
            match find_char(line, '=', 0) {
                Some(p) => {
                    proof {
                        lemma_first_index_in_range(linev, '=', 0);
                        assert(p < llen);
                    }
                    let end = match find_char(line, '=', p + 1) {
                        Some(q) => {
                            proof {
                                lemma_first_index_in_range(linev, '=', p + 1);
                            }
                            q
                        },
                        None => llen,
                    };
                    let seg = copy_range(line, p + 1, end);
                    let trimmed = trim_chars(&seg);
                    let tok = take_token(&trimmed);
                    match parse_u32_chars(&tok) {
                        Some(t) => {
                            cur_t = t;
                        },
                        None => {},
                    }
                },
                None => {},
            }
            proof {
                assert(cur_rows.deep_view() =~= Seq::<Seq<char>>::empty());
            }
        } else if starts_with_pattern(line, &bprefix) {
            let finished = cur_rows;
            cur_rows = Vec::new();
            flush_board(&mut groups, cur_t, cur_id, finished);
            match find_char(line, '#', 0) {
                Some(p) => {
                    proof {
                        lemma_first_index_in_range(linev, '#', 0);
                        assert(p < llen);
                    }
                    let end = match find_char(line, '#', p + 1) {
                        Some(q) => {
                            proof {
                                lemma_first_index_in_range(linev, '#', p + 1);
                            }
                            q
                        },
                        None => llen,
                    };
                    let seg = copy_range(line, p + 1, end);
                    let tok = take_token(&seg);
                    match parse_usize_chars(&tok) {
                        Some(v) => {
                            cur_id = v;
                        },
                        None => {},
                    }
                },
                None => {},
            }
            proof {
                assert(cur_rows.deep_view() =~= Seq::<Seq<char>>::empty());
            }
        } else {
            let row = extract_row(line);
            if row.len() > 0 {
                let ghost rows_before = cur_rows.deep_view();
                let ghost rowv = row@;
                proof {
                    assert(row.deep_view() =~= rowv);
                }
                cur_rows.push(row);
                proof {
                    assert(cur_rows.deep_view() =~= rows_before.push(rowv));
                }
            }
        }
        i = i + 1;
    }
    proof {
        assert(linesv.subrange(0, linesv.len() as int) =~= linesv);
    }
    let finished = cur_rows;
    flush_board(&mut groups, cur_t, cur_id, finished);
    Catalog { groups }
}

} // verus!
