//! The selection dialogue as a pure function: from the catalog and the
//! three user responses (a `t`-value, a template ID, a base-11 digit
//! string) to the filled board or the failure that ends the run.  Every
//! failure is terminal: there is no retry.
//!
//! The template-ID lookup deliberately matches the user's input against
//! each template's locally scoped ID, not against the displayed global-ID
//! range; the two can disagree when local IDs are not contiguous from 1.

use vstd::prelude::*;
use crate::base11::{Base11Error, digit_value, is_base11_digit, spec_parse_base11, parse_base11};
use crate::catalog::{Catalog, GroupModel, first_group_with_t, first_board_with_id,
    lemma_first_group_in_range, lemma_first_board_in_range};
use crate::grid::{count_filled_grid, count_filled, spec_fill, fill_board};
use crate::numbers::{parse_u32_spec, parse_usize_spec, parse_u32_chars, parse_usize_chars};

verus! {

/// The failure that ended a run of the dialogue.
#[derive(Debug, Clone, Copy, PartialEq, Eq, Structural)]
pub enum WizardError {
    /// The `t` response did not parse as an unsigned integer.
    InvalidTInput,
    /// The `t` response is not a key of the catalog.
    UnknownT,
    /// The ID response did not parse as an unsigned integer.
    InvalidIdInput,
    /// No template in the chosen group carries the given local ID.
    UnknownId,
    /// The digit string's length differs from the filled-cell count.
    LengthMismatch,
    /// More than one 'B' in the digit string.
    DuplicateB,
    /// A character of the digit string is not a base-11 digit.
    InvalidDigit,
}

impl WizardError {
    /// The diagnostic printed for this failure.
    pub fn message(&self) -> (m: &'static str)
        ensures
            m@ == match *self {
                WizardError::InvalidTInput => "Invalid t value"@,
                WizardError::UnknownT => "Invalid t selected"@,
                WizardError::InvalidIdInput => "Invalid global ID"@,
                WizardError::UnknownId => "Invalid global ID."@,
                WizardError::LengthMismatch => "Invalid base-11 ID length."@,
                WizardError::DuplicateB => "Invalid base-11 ID: more than one 'B'"@,
                WizardError::InvalidDigit => "Invalid base-11 digit"@,
            },
    {
        match *self {
            WizardError::InvalidTInput => "Invalid t value",
            WizardError::UnknownT => "Invalid t selected",
            WizardError::InvalidIdInput => "Invalid global ID",
            WizardError::UnknownId => "Invalid global ID.",
            WizardError::LengthMismatch => "Invalid base-11 ID length.",
            WizardError::DuplicateB => "Invalid base-11 ID: more than one 'B'",
            WizardError::InvalidDigit => "Invalid base-11 digit",
        }
    }
}

/// Every template's filled-cell count fits the machine word.
pub open spec fn counts_fit(gs: Seq<GroupModel>) -> bool {
    forall|i: int, j: int|
        0 <= i < gs.len() && 0 <= j < gs[i].boards.len() ==> count_filled_grid(
            (#[trigger] gs[i].boards[j]).rows,
        ) <= usize::MAX
}

/// The whole dialogue on given responses: which board comes out, or which
/// failure ends the run.  `t_line` and `id_line` are the trimmed numeric
/// responses; `digits` is the trimmed and upper-cased digit string.
pub open spec fn spec_wizard(
    gs: Seq<GroupModel>,
    t_line: Seq<char>,
    id_line: Seq<char>,
    digits: Seq<char>,
) -> Result<Seq<Seq<u32>>, WizardError> {
    match parse_u32_spec(t_line) {
        None => Err(WizardError::InvalidTInput),
        Some(t) => match first_group_with_t(gs, t as int) {
            None => Err(WizardError::UnknownT),
            Some(gi) => match parse_usize_spec(id_line) {
                None => Err(WizardError::InvalidIdInput),
                Some(id) => match first_board_with_id(gs[gi].boards, id as int) {
                    None => Err(WizardError::UnknownId),
                    Some(bi) => {
                        let proto = gs[gi].boards[bi].rows;
                        if digits.len() != count_filled_grid(proto) {
                            Err(WizardError::LengthMismatch)
                        } else {
                            match spec_parse_base11(digits) {
                                Err(Base11Error::DuplicateB) => Err(WizardError::DuplicateB),
                                Err(Base11Error::InvalidDigit) => Err(WizardError::InvalidDigit),
                                Ok(tiles) => Ok(spec_fill(proto, tiles)),
                            }
                        }
                    },
                },
            },
        },
    }
}

/// Runs the whole dialogue on given responses: selects the template whose
/// local ID matches the ID response within the group of the `t` response,
/// and fills it from the digit string.  Returns exactly what
/// `spec_wizard` prescribes, failure by failure.
pub fn run_wizard(
    catalog: &Catalog,
    t_line: &Vec<char>,
    id_line: &Vec<char>,
    digits: &Vec<char>,
) -> (r: Result<Vec<Vec<u32>>, WizardError>)
    requires
        catalog.wf(),
        counts_fit(catalog@),
    ensures
        match r {
            Ok(board) => spec_wizard(catalog@, t_line@, id_line@, digits@) == Ok::<
                Seq<Seq<u32>>,
                WizardError,
            >(board.deep_view()),
            Err(e) => spec_wizard(catalog@, t_line@, id_line@, digits@) == Err::<
                Seq<Seq<u32>>,
                WizardError,
            >(e),
        },
{
    let t = match parse_u32_chars(t_line) {
        Some(t) => t,
        None => {
            return Err(WizardError::InvalidTInput);
        },
    };
    let gi = match catalog.find_group(t) {
        Some(gi) => gi,
        None => {
            return Err(WizardError::UnknownT);
        },
    };
    proof {
        lemma_first_group_in_range(catalog@, t as int);
    }
    let id = match parse_usize_chars(id_line) {
        Some(id) => id,
        None => {
            return Err(WizardError::InvalidIdInput);
        },
    };
    let bi = match catalog.find_board(gi, id) {
        Some(bi) => bi,
        None => {
            return Err(WizardError::UnknownId);
        },
    };
    proof {
        lemma_first_board_in_range(catalog@[gi as int].boards, id as int);
    }
    let proto = &catalog.groups[gi].boards[bi].rows;
    let ghost protov = catalog@[gi as int].boards[bi as int].rows;
    proof {
        assert(protov =~~= proto.deep_view());
    }
    let filled_count = count_filled(proto);
    if digits.len() != filled_count {
        return Err(WizardError::LengthMismatch);
    }
    let tiles = match parse_base11(digits) {
        Ok(tiles) => tiles,
        Err(Base11Error::DuplicateB) => {
            return Err(WizardError::DuplicateB);
        },
        Err(Base11Error::InvalidDigit) => {
            return Err(WizardError::InvalidDigit);
        },
    };
    proof {
        assert forall|k: int| 0 <= k < tiles@.len() implies 1 <= #[trigger] tiles@[k] <= 11 by {
            assert(is_base11_digit(digits@[k]));
            assert(tiles@[k] == digit_value(digits@[k]));
        }
    }
    let board = fill_board(proto, &tiles);
    Ok(board)
}

} // verus!
