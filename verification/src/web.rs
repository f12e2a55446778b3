//! The decisions of the web pages: who asks, for what, and what to show.
//!
//! The pages themselves, the server and the exchange with the front desk
//! are the business of the embedding program.

use vstd::prelude::*;
use vstd::string::StringExecFns;
use vstd::utf8::{decode_utf8, valid_utf8};
use crate::utils::table::position;
use crate::utils::text::{
    eq_ignore_ascii_case, leading, same_but_for_case, same_text, split, split_on, split_once,
    split_once_on, text_of, trailing, trim_end, trim_start, trim_start_matches, without_start,
};
use crate::web::fab_api::object::{urns, Machine, Usage};

pub mod fab_api;

verus! {

/// Why credentials could not be read.
#[derive(Debug, Clone, Copy, PartialEq, Eq, Structural)]
pub enum AuthFault {
    /// The credentials are no base64.
    NotBase64,
    /// The decoded credentials are no text.
    NotText,
    /// The decoded credentials have no colon between name and password.
    NoSeparator,
}

impl AuthFault {
    /// The text under which the fault is reported.
    pub fn message(self) -> (message: &'static str)
        ensures
            message@ == match self {
                AuthFault::NotBase64 => "credentials are not valid base64"@,
                AuthFault::NotText => "decoded credentials are not valid utf-8"@,
                AuthFault::NoSeparator => "couldn't split decoded credentials"@,
            },
    {
        match self {
            AuthFault::NotBase64 => "credentials are not valid base64",
            AuthFault::NotText => "decoded credentials are not valid utf-8",
            AuthFault::NoSeparator => "couldn't split decoded credentials",
        }
    }
}

/// What the standard base64 alphabet with padding decodes a text to, as
/// `base64` decodes it; `None` for a text that it rejects.
pub uninterp spec fn base64_decoded(text: Seq<char>) -> Option<Seq<u8>>;

/// Decodes `text` with the `decode` of `base64`'s standard engine. The
/// outcome is a function of the text alone; nothing more is claimed of it.
#[verifier::external_body]
fn decode_base64(text: &str) -> (bytes: Option<Vec<u8>>)
    ensures
        bytes.deep_view() == base64_decoded(text@),
{
    base64::Engine::decode(&base64::prelude::BASE64_STANDARD, text).ok()
}

/// The name and the password in decoded credentials: the text before the
/// first colon and the text after it.
pub open spec fn credentials(decoded: Option<Seq<u8>>) -> Result<(Seq<char>, Seq<char>), AuthFault> {
    match decoded {
        None => Err(AuthFault::NotBase64),
        Some(bytes) => if !valid_utf8(bytes) {
            Err(AuthFault::NotText)
        } else {
            match split_once_on(decode_utf8(bytes), ':') {
                Some(halves) => Ok(halves),
                None => Err(AuthFault::NoSeparator),
            }
        },
    }
}

/// Reads name and password out of decoded credentials.
pub fn read_credentials(decoded: Option<Vec<u8>>) -> (read: Result<(String, String), AuthFault>)
    ensures
        match read {
            Ok(halves) => credentials(decoded.deep_view()) == Ok::<(Seq<char>, Seq<char>), AuthFault>(
                halves.deep_view(),
            ),
            Err(fault) => credentials(decoded.deep_view()) == Err::<(Seq<char>, Seq<char>), AuthFault>(
                fault,
            ),
        },
{
    let bytes = match decoded {
        Some(bytes) => bytes,
        None => {
            return Err(AuthFault::NotBase64);
        },
    };
    assert(decoded.deep_view() == Some(bytes@));
    let text = match text_of(bytes) {
        Some(text) => text,
        None => {
            return Err(AuthFault::NotText);
        },
    };
    match split_once(text.as_str(), ':') {
        Some(halves) => Ok(halves),
        None => Err(AuthFault::NoSeparator),
    }
}

/// Reads name and password out of credentials in base64.
pub fn decode_auth(base64: &str) -> (read: Result<(String, String), AuthFault>)
    ensures
        match read {
            Ok(halves) => credentials(base64_decoded(base64@)) == Ok::<
                (Seq<char>, Seq<char>),
                AuthFault,
            >(halves.deep_view()),
            Err(fault) => credentials(base64_decoded(base64@)) == Err::<
                (Seq<char>, Seq<char>),
                AuthFault,
            >(fault),
        },
{
    read_credentials(decode_base64(base64))
}

/// The levels of a path that are not empty.
pub open spec fn levels(path: Seq<char>) -> Seq<Seq<char>> {
    split_on(path, '/').filter(|level: Seq<char>| level.len() > 0)
}

/// What a path asks for: its first level, if it has one.
pub open spec fn target_of(path: Seq<char>) -> Option<Seq<char>> {
    if levels(path).len() > 0 {
        Some(levels(path)[0])
    } else {
        None
    }
}

/// Whether a path asks to toggle its target: its second level is
/// `toggle`.
pub open spec fn asks_toggle(path: Seq<char>) -> bool {
    levels(path).len() > 1 && levels(path)[1] == "toggle"@
}

/// The credentials that a header of basic authorization carries: what
/// stands behind the word `Basic`.
pub open spec fn carried(authorization: Seq<char>) -> Seq<char> {
    without_start(authorization, "Basic "@)
}

/// What a request asks for, once the user is known.
#[derive(Debug, Clone, PartialEq, Eq)]
pub struct Request {
    pub username: String,
    pub password: String,
    /// The resource that the request is about; none for the overview.
    pub target: Option<String>,
    /// Whether the resource is to be toggled.
    pub toggle: bool,
}

/// What to do about a request before anything is asked of the front desk.
#[derive(Debug, Clone, PartialEq, Eq)]
pub enum Plan {
    /// The request carries no credentials: ask for them.
    Challenge,
    /// The credentials cannot be read.
    Refuse(AuthFault),
    /// Ask the front desk.
    Exchange(Request),
}

/// The first two levels of a path that are not empty.
pub fn first_levels(path: &str) -> (found: (Option<String>, Option<String>))
    ensures
        found.0.deep_view() == target_of(path@),
        found.1.deep_view() == if levels(path@).len() > 1 {
            Some(levels(path@)[1])
        } else {
            None
        },
{
    let pieces = split(path, '/');
    let ghost all = pieces.deep_view();
    let ghost kept = |level: Seq<char>| level.len() > 0;
    let mut first: Option<String> = None;
    let mut second: Option<String> = None;
    let mut at: usize = 0;
    proof {
        assert(all.take(0) =~= Seq::<Seq<char>>::empty());
    }
    while at < pieces.len()
        invariant
            at <= pieces.len(),
            all == pieces.deep_view(),
            all == split_on(path@, '/'),
            kept == |level: Seq<char>| level.len() > 0,
            first.deep_view() == if all.take(at as int).filter(kept).len() > 0 {
                Some(all.take(at as int).filter(kept)[0])
            } else {
                None
            },
            second.deep_view() == if all.take(at as int).filter(kept).len() > 1 {
                Some(all.take(at as int).filter(kept)[1])
            } else {
                None
            },
        decreases pieces.len() - at,
    {
        let piece = pieces[at].as_str();
        proof {
            assert(all.take(at as int + 1).drop_last() =~= all.take(at as int));
            assert(all.take(at as int + 1).last() == piece@);
            reveal_with_fuel(Seq::filter, 2);
        }
        if piece.unicode_len() > 0 {
            if first.is_none() {
                first = Some(piece.to_owned());
            } else if second.is_none() {
                second = Some(piece.to_owned());
            }
        }
        at = at + 1;
    }
    proof {
        assert(all.take(at as int) =~= all);
    }
    (first, second)
}

/// Decides what to do about a request from its path and its header of
/// authorization, given what the credentials decode to.
pub fn plan_with(path: &str, authorization: Option<&str>, decoded: Option<Vec<u8>>) -> (plan: Plan)
    ensures
        match plan {
            Plan::Challenge => authorization is None,
            Plan::Refuse(fault) => authorization is Some && credentials(decoded.deep_view()) == Err::<
                (Seq<char>, Seq<char>),
                AuthFault,
            >(fault),
            Plan::Exchange(request) => {
                let asked = path@.skip(leading(path@, '/') as int);
                let asked = asked.take(asked.len() - trailing(asked, '?'));
                &&& authorization is Some
                &&& credentials(decoded.deep_view()) == Ok::<(Seq<char>, Seq<char>), AuthFault>(
                    (request.username@, request.password@),
                )
                &&& request.target.deep_view() == target_of(asked)
                &&& request.toggle == asks_toggle(asked)
            },
        },
{
    if authorization.is_none() {
        return Plan::Challenge;
    }
    let (username, password) = match read_credentials(decoded) {
        Ok(halves) => halves,
        Err(fault) => {
            return Plan::Refuse(fault);
        },
    };
    let without_slashes = trim_start(path, '/');
    let asked = trim_end(without_slashes.as_str(), '?');
    let (target, second) = first_levels(asked.as_str());
    let toggle = match second {
        Some(level) => same_text(level.as_str(), "toggle"),
        None => false,
    };
    Plan::Exchange(Request { username, password, target, toggle })
}

/// Decides what to do about a request from its path and its header of
/// authorization.
pub fn try_handle(path: &str, authorization: Option<&str>) -> (plan: Plan)
    ensures
        match plan {
            Plan::Challenge => authorization is None,
            Plan::Refuse(fault) => authorization matches Some(header) && credentials(
                base64_decoded(carried(header@)),
            ) == Err::<(Seq<char>, Seq<char>), AuthFault>(fault),
            Plan::Exchange(request) => {
                let asked = path@.skip(leading(path@, '/') as int);
                let asked = asked.take(asked.len() - trailing(asked, '?'));
                &&& authorization matches Some(header) && credentials(
                    base64_decoded(carried(header@)),
                ) == Ok::<(Seq<char>, Seq<char>), AuthFault>((request.username@, request.password@))
                &&& request.target.deep_view() == target_of(asked)
                &&& request.toggle == asks_toggle(asked)
            },
        },
{
    match authorization {
        Some(header) => {
            let carried = trim_start_matches(header, "Basic ");
            plan_with(path, authorization, decode_base64(carried.as_str()))
        },
        None => Plan::Challenge,
    }
}

/// What to show once the front desk has answered.
#[derive(Debug, Clone, PartialEq, Eq)]
pub enum Page {
    /// The list of the user's own resources.
    Overview,
    /// The table of all resources.
    Debug,
    /// The page of the resource at this position of the answer.
    Resource(usize),
    /// A redirection to this location.
    Redirect(String),
    /// An error: the front desk has no resource of that urn.
    UnknownResource,
}

/// The location of the page of a resource.
pub open spec fn location(urn: Seq<char>) -> Seq<char> {
    seq!['/'] + urn
}

/// Decides what to show for a request about `target`, given the resources
/// that the front desk lists: the overview without a target, the table of
/// all resources for the target `debug` in any case of letters, and else
/// the page of the first resource whose urn is the target, or, after a
/// toggle, a redirection to that page.
pub fn choose_page(target: Option<&str>, toggle: bool, resources: &Vec<Machine>) -> (page: Page)
    ensures
        match page {
            Page::Overview => target is None,
            Page::Debug => target matches Some(urn) && same_but_for_case(urn@, "debug"@),
            Page::Resource(at) => {
                &&& target matches Some(urn) && !same_but_for_case(urn@, "debug"@)
                &&& !toggle
                &&& urns(resources@).index_of_first(target->0@) == Some(at as int)
            },
            Page::Redirect(to) => {
                &&& target matches Some(urn) && !same_but_for_case(urn@, "debug"@)
                &&& toggle
                &&& urns(resources@).contains(target->0@)
                &&& to@ == location(target->0@)
            },
            Page::UnknownResource => {
                &&& target matches Some(urn) && !same_but_for_case(urn@, "debug"@)
                &&& !urns(resources@).contains(target->0@)
            },
        },
{
    let urn = match target {
        Some(urn) => urn,
        None => {
            return Page::Overview;
        },
    };
    if eq_ignore_ascii_case(urn, "debug") {
        return Page::Debug;
    }
    let mut at: usize = 0;
    while at < resources.len()
        invariant
            at <= resources.len(),
            target == Some(urn),
            !same_but_for_case(urn@, "debug"@),
            forall|before: int| 0 <= before < at ==> urns(resources@)[before] != urn@,
        decreases resources.len() - at,
    {
        if same_text(resources[at].urn.as_str(), urn) {
            proof {
                crate::utils::table::lemma_first_index(urns(resources@), urn@, at as int);
                assert(urns(resources@)[at as int] == urn@);
            }
            if toggle {
                proof {
                    reveal_strlit("/");
                }
                let mut to = "/".to_owned();
                to.append(urn);
                assert(to@ =~= location(urn@));
                return Page::Redirect(to);
            }
            return Page::Resource(at);
        }
        at = at + 1;
    }
    proof {
        crate::utils::table::lemma_no_index(urns(resources@), urn@);
        urns(resources@).index_of_first_ensures(urn@);
    }
    Page::UnknownResource
}

/// The positions of the resources that are the user's own, in order.
pub open spec fn own(resources: Seq<Machine>) -> Seq<usize>
    decreases resources.len(),
{
    if resources.len() == 0 {
        Seq::empty()
    } else {
        let earlier = own(resources.drop_last());
        if resources.last().usage == Usage::Yours {
            earlier.push((resources.len() - 1) as usize)
        } else {
            earlier
        }
    }
}

/// Picks the resources that the overview lists: the user's own.
pub fn overview(resources: &Vec<Machine>) -> (listed: Vec<usize>)
    ensures
        listed@ == own(resources@),
        forall|at: int| 0 <= at < listed.len() ==> listed[at] < resources.len(),
{
    let mut listed: Vec<usize> = Vec::new();
    let mut at: usize = 0;
    proof {
        assert(resources@.take(0) =~= Seq::<Machine>::empty());
    }
    while at < resources.len()
        invariant
            at <= resources.len(),
            listed@ == own(resources@.take(at as int)),
            forall|index: int| 0 <= index < listed.len() ==> listed[index] < at,
        decreases resources.len() - at,
    {
        proof {
            assert(resources@.take(at as int + 1).drop_last() =~= resources@.take(at as int));
            assert(resources@.take(at as int + 1).last() == resources@[at as int]);
        }
        if resources[at].usage == Usage::Yours {
            listed.push(at);
        }
        at = at + 1;
    }
    proof {
        assert(resources@.take(at as int) =~= resources@);
    }
    listed
}

} // verus!
