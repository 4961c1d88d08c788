//! Decisions about the operating system: the login item, and sleep and wake.
use vstd::prelude::*;
use vstd::string::*;

use crate::text;

verus! {

/// Error shown when a login-item operation is attempted outside `CamFast.app`.
pub const NOT_IN_BUNDLE_MESSAGE: &'static str = "Only available in CamFast.app (run packaging/macos/bundle.sh)";

/// What the system says of power.
#[derive(Clone, Copy, Debug, PartialEq, Eq, Structural)]
pub enum PowerEvent {
    Sleep,
    Wake,
}

/// Callbacks for system power events.
pub struct PowerCallbacks<S: Fn(), W: Fn()> {
    pub will_sleep: S,
    pub did_wake: W,
}

impl<S: Fn(), W: Fn()> PowerCallbacks<S, W> {
    /// Tells of an event.
    pub fn deliver(&self, event: PowerEvent)
        requires
            call_requires(self.will_sleep, ()),
            call_requires(self.did_wake, ()),
        ensures
            event == PowerEvent::Sleep ==> call_ensures(self.will_sleep, (), ()),
            event == PowerEvent::Wake ==> call_ensures(self.did_wake, (), ()),
    {
        match event {
            PowerEvent::Sleep => (self.will_sleep)(),
            PowerEvent::Wake => (self.did_wake)(),
        }
    }
}

/// Whether an executable at this path is one of a bundle.
pub open spec fn bundled(path: Seq<char>, has_identifier: bool) -> bool {
    ".app"@.is_suffix_of(path) && has_identifier
}

/// Whether an executable with this bundle runs from an `.app` bundle with an identifier (as
/// opposed to a bare binary).
pub fn is_app_bundle(path: &str, has_identifier: bool) -> (res: bool)
    ensures
        res == bundled(path@, has_identifier),
{
    text::ends_with(path, ".app") && has_identifier
}

/// The state of the login item.
#[derive(Clone, Copy, Debug, PartialEq, Eq, Structural)]
pub enum LoginItem {
    NotRegistered,
    Enabled,
    RequiresApproval,
    NotFound,
}

/// What to do about the login item.
#[derive(Clone, Copy, Debug, PartialEq, Eq, Structural)]
pub enum LoginStep {
    /// It is what it should be.
    Nothing,
    Register,
    Unregister,
}

/// Whether the application opens at login. `item` is none outside a bundle.
pub fn open_at_login_enabled(item: Option<LoginItem>) -> (res: bool)
    ensures
        res == (item == Some(LoginItem::Enabled)),
{
    match item {
        Some(LoginItem::Enabled) => true,
        _ => false,
    }
}

/// Whether the login item still needs the user's approval. `item` is none outside a bundle.
pub fn open_at_login_requires_approval(item: Option<LoginItem>) -> (res: bool)
    ensures
        res == (item == Some(LoginItem::RequiresApproval)),
{
    match item {
        Some(LoginItem::RequiresApproval) => true,
        _ => false,
    }
}

/// What to do about an item so that the application opens at login, or does not.
pub open spec fn login_step(enabled: bool, item: LoginItem) -> LoginStep {
    if enabled {
        if item == LoginItem::Enabled || item == LoginItem::RequiresApproval {
            LoginStep::Nothing
        } else {
            LoginStep::Register
        }
    } else if item == LoginItem::NotRegistered {
        LoginStep::Nothing
    } else {
        LoginStep::Unregister
    }
}

/// What to do so that the application opens at login, or does not. Refused outside a bundle. An
/// item that waits for approval counts as registered.
pub fn set_open_at_login(enabled: bool, item: Option<LoginItem>) -> (res: Result<LoginStep, String>)
    ensures
        match item {
            None => res is Err && res->Err_0@ == NOT_IN_BUNDLE_MESSAGE@,
            Some(item) => res == Ok::<LoginStep, String>(login_step(enabled, item)),
        },
{
    let item = match item {
        Some(item) => item,
        None => {
            return Err(NOT_IN_BUNDLE_MESSAGE.to_owned());
        },
    };
    Ok(
        if enabled {
            if item == LoginItem::Enabled || item == LoginItem::RequiresApproval {
                LoginStep::Nothing
            } else {
                LoginStep::Register
            }
        } else if item == LoginItem::NotRegistered {
            LoginStep::Nothing
        } else {
            LoginStep::Unregister
        },
    )
}

/// What is said when a change of the login item failed.
pub fn login_error(enabled: bool) -> (res: &'static str)
    ensures
        res@ == (if enabled {
            "Could not enable 'Open at login'"@
        } else {
            "Could not disable 'Open at login'"@
        }),
{
    if enabled {
        "Could not enable 'Open at login'"
    } else {
        "Could not disable 'Open at login'"
    }
}

/// An item that opens the application at login, or only waits for approval, is not registered
/// again, and any other one is. Only an item that was never registered needs no removal. What one
/// request does, the other takes back.
pub proof fn lemma_login_item_is_changed_when_needed(item: LoginItem)
    ensures
        login_step(true, LoginItem::Enabled) == LoginStep::Nothing,
        login_step(true, LoginItem::RequiresApproval) == LoginStep::Nothing,
        item != LoginItem::Enabled && item != LoginItem::RequiresApproval ==> login_step(true, item)
            == LoginStep::Register,
        login_step(false, LoginItem::NotRegistered) == LoginStep::Nothing,
        item != LoginItem::NotRegistered ==> login_step(false, item) == LoginStep::Unregister,
        login_step(true, item) == LoginStep::Nothing ==> login_step(false, item)
            == LoginStep::Unregister,
        login_step(false, item) == LoginStep::Nothing ==> login_step(true, item)
            == LoginStep::Register,
{
}

/// A bundle is told by the end of its path and by having an identifier.
pub proof fn lemma_what_a_bundle_is(path: Seq<char>, before: Seq<char>)
    ensures
        path == before + seq!['.', 'a', 'p', 'p'] ==> bundled(path, true),
        !bundled(path, false),
        path.len() < 4 ==> !bundled(path, true),
        path.len() >= 4 && path.skip(path.len() - 4) != seq!['.', 'a', 'p', 'p'] ==> !bundled(
            path,
            true,
        ),
{
    reveal_strlit(".app");
    assert(".app"@ =~= seq!['.', 'a', 'p', 'p']);
    if path == before + seq!['.', 'a', 'p', 'p'] {
        assert(path.subrange(path.len() - 4, path.len() as int) =~= ".app"@);
    }
    if path.len() >= 4 {
        assert(path.skip(path.len() - 4) =~= path.subrange(path.len() - 4, path.len() as int));
    }
}

}
