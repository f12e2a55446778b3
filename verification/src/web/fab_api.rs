//! What the exchange with the front desk takes and what it decides.

use vstd::prelude::*;
use vstd::string::StringExecFns;
use crate::web::fab_api::object::Occupancy;

pub mod object;

verus! {

/// What toggling a resource does.
#[derive(Debug, Clone, Copy, PartialEq, Eq, Structural)]
pub enum Toggle {
    /// The user has the resource and gives it back.
    GiveBack,
    /// Someone else has the resource and it is set free.
    ForceFree,
    /// The resource is taken into use.
    Use,
}

/// What toggling a resource does: the user's own is given back, one in
/// use by someone else is set free, any other is taken into use. The state
/// of the resource matters only where the user does not hold it, and may
/// be left unread otherwise.
pub open spec fn toggled(given_back_by_user: bool, state: Option<Occupancy>) -> Toggle {
    if given_back_by_user {
        Toggle::GiveBack
    } else if state == Some(Occupancy::InUse) {
        Toggle::ForceFree
    } else {
        Toggle::Use
    }
}

/// Decides what toggling a resource does.
pub fn toggle_machine(given_back_by_user: bool, state: Option<Occupancy>) -> (toggle: Toggle)
    ensures
        toggle == toggled(given_back_by_user, state),
{
    if given_back_by_user {
        Toggle::GiveBack
    } else {
        match state {
            Some(Occupancy::InUse) => Toggle::ForceFree,
            _ => Toggle::Use,
        }
    }
}

/// The message of a login by user name and password: a zero character
/// before each of the two.
pub open spec fn login_message(username: Seq<char>, password: Seq<char>) -> Seq<char> {
    seq!['\0'] + username + seq!['\0'] + password
}

/// Builds the message of a login by user name and password.
pub fn login_data(username: &str, password: &str) -> (message: String)
    ensures
        message@ == login_message(username@, password@),
{
    proof {
        reveal_strlit("\0");
    }
    let mut message = "\0".to_owned();
    message.append(username);
    message.append("\0");
    message.append(password);
    assert(message@ =~= login_message(username@, password@));
    message
}

} // verus!
