use vstd::prelude::*;

verus! {

/// A permission category that a credential can grant.
///
/// Each variant has a stable single-byte wire code, written out in the
/// tables of `repr` and `from_repr`. The code is part of the persisted
/// compound-key layout, so it is fixed explicitly rather than derived from
/// declaration order: reordering the variants must never change the codes.
#[derive(Clone, Copy, Debug, PartialEq, Eq, Structural)]
pub enum Action {
    All,
    Search,
    DocumentsAdd,
    DocumentsDelete,
    SettingsGet,
    SettingsUpdate,
    IndexesCreate,
    IndexesDelete,
    KeysManage,
}

impl Action {
    /// The stable wire code of this action.
    pub open spec fn spec_repr(self) -> u8 {
        match self {
            Action::All => 0,
            Action::Search => 1,
            Action::DocumentsAdd => 2,
            Action::DocumentsDelete => 3,
            Action::SettingsGet => 4,
            Action::SettingsUpdate => 5,
            Action::IndexesCreate => 6,
            Action::IndexesDelete => 7,
            Action::KeysManage => 8,
        }
    }

    pub fn repr(&self) -> (code: u8)
        ensures
            code == self.spec_repr(),
    {
        match self {
            Action::All => 0,
            Action::Search => 1,
            Action::DocumentsAdd => 2,
            Action::DocumentsDelete => 3,
            Action::SettingsGet => 4,
            Action::SettingsUpdate => 5,
            Action::IndexesCreate => 6,
            Action::IndexesDelete => 7,
            Action::KeysManage => 8,
        }
    }

    /// The action assigned to a wire code, if any; an unrecognized code is
    /// a corruption condition for the caller, never a silent default.
    pub open spec fn spec_from_repr(code: u8) -> Option<Action> {
        match code {
            0u8 => Some(Action::All),
            1u8 => Some(Action::Search),
            2u8 => Some(Action::DocumentsAdd),
            3u8 => Some(Action::DocumentsDelete),
            4u8 => Some(Action::SettingsGet),
            5u8 => Some(Action::SettingsUpdate),
            6u8 => Some(Action::IndexesCreate),
            7u8 => Some(Action::IndexesDelete),
            8u8 => Some(Action::KeysManage),
            _ => None,
        }
    }

    pub fn from_repr(code: u8) -> (r: Option<Action>)
        ensures
            r == Self::spec_from_repr(code),
    {
        match code {
            0u8 => Some(Action::All),
            1u8 => Some(Action::Search),
            2u8 => Some(Action::DocumentsAdd),
            3u8 => Some(Action::DocumentsDelete),
            4u8 => Some(Action::SettingsGet),
            5u8 => Some(Action::SettingsUpdate),
            6u8 => Some(Action::IndexesCreate),
            7u8 => Some(Action::IndexesDelete),
            8u8 => Some(Action::KeysManage),
            _ => None,
        }
    }
}

/// Decoding a wire code written by `repr` always yields the action back,
/// so the code table is collision-free.
pub proof fn lemma_action_code_roundtrip(a: Action)
    ensures
        Action::spec_from_repr(a.spec_repr()) == Some(a),
{
}

} // verus!
