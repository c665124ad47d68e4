//! Starting with the system: where the app may be registered from (macOS).

use vstd::prelude::*;

use auto_launch::AutoLaunch;

use crate::text::{contains_text, occurs_at, spec_contains, starts_with_text};

verus! {

/// The argument the login item starts the app with.
pub const AUTOSTART_ARG: &'static str = "--autostart";

/// An app on a disk image, or a quarantined download that macOS runs from a random temporary
/// folder, cannot be registered to start at login.
pub open spec fn misplaced(exe: Seq<char>) -> bool {
    occurs_at(exe, "/Volumes/"@, 0) || spec_contains(exe, "/AppTranslocation/"@)
}

/// Whether the app at `exe` may be registered to start at login; the message says why not.
pub fn check_location(exe: &str) -> (r: Result<(), String>)
    ensures
        r is Err == misplaced(exe@),
        r matches Err(msg) ==> msg@ == "Move Monitorium to the Applications folder first"@,
{
    if starts_with_text(exe, "/Volumes/") || contains_text(exe, "/AppTranslocation/") {
        return Err(String::from_str("Move Monitorium to the Applications folder first"));
    }
    Ok(())
}

/// The line of a LaunchAgent property list that starts the app at `exe`.
pub open spec fn program_line(exe: Seq<char>) -> Seq<char> {
    "<string>"@ + exe + "</string>"@
}

/// Whether the login item starts another copy than the app at `exe`, which then has been
/// moved. `plist` is the LaunchAgent's property list, where it could be read. Only a bundled
/// app takes over the login item, not a build run from the source tree.
pub fn moved(exe: &str, plist: Option<&str>) -> (r: bool)
    ensures
        r == (spec_contains(exe@, ".app/Contents/MacOS/"@) && match plist {
            Some(p) => !spec_contains(p@, program_line(exe@)),
            None => false,
        }),
{
    if !contains_text(exe, ".app/Contents/MacOS/") {
        return false;
    }
    match plist {
        Some(plist) => {
            let mut line = String::from_str("<string>");
            line.append(exe);
            line.append("</string>");
            !contains_text(plist, line.as_str())
        },
        None => false,
    }
}

/// The path a login item starts the app by: quoted on Windows, where auto-launch joins it with
/// the arguments as it is.
pub fn app_path(exe: &str, windows: bool) -> (r: String)
    ensures
        r@ == if windows {
            "\""@ + exe@ + "\""@
        } else {
            exe@
        },
{
    proof {
        reveal_strlit("\"");
    }
    if windows {
        let mut path = String::from_str("\"");
        path.append(exe);
        path.append("\"");
        path
    } else {
        String::from_str(exe)
    }
}

#[verifier::external_type_specification]
#[verifier::external_body]
pub struct ExAutoLaunch(AutoLaunch);

/// A call the library makes on the system's login item, with what came back.
#[derive(Debug, PartialEq, Eq)]
pub enum LoginCall {
    /// Asks whether it is on
    Query(Result<bool, String>),
    /// Registers it
    Enable(Result<(), String>),
    /// Removes it
    Disable(Result<(), String>),
}

/// The system's login item, and the calls made on it so far.
pub struct LoginItem {
    launcher: AutoLaunch,
    calls: Ghost<Seq<LoginCall>>,
}

impl LoginItem {
    /// The calls made on the login item so far, in order.
    pub closed spec fn calls(&self) -> Seq<LoginCall> {
        self.calls@
    }

    pub fn new(launcher: AutoLaunch) -> (r: Self)
        ensures
            r.calls() == Seq::<LoginCall>::empty(),
    {
        LoginItem { launcher, calls: Ghost(Seq::empty()) }
    }
}

/// The calls made on a login item, none where there is no login item.
pub open spec fn login_calls(item: Result<LoginItem, String>) -> Seq<LoginCall> {
    match item {
        Ok(l) => l.calls(),
        Err(_) => Seq::empty(),
    }
}

/// Calls auto-launch's `AutoLaunch::is_enabled`, which looks the login item up on the system:
/// the call is noted with its answer. What it answers depends on the system, so nothing more
/// is stated of that.
#[verifier::external_body]
fn login_item_enabled(item: &mut LoginItem) -> (r: Result<bool, String>)
    ensures
        final(item).calls() == old(item).calls().push(LoginCall::Query(r)),
{
    match item.launcher.is_enabled() {
        Ok(on) => Ok(on),
        Err(err) => Err(err.to_string()),
    }
}

/// Calls auto-launch's `AutoLaunch::enable`, which registers the login item on the system: the
/// call is noted with its outcome. Whether it succeeds depends on the system, so nothing more
/// is stated of that.
#[verifier::external_body]
fn enable_login_item(item: &mut LoginItem) -> (r: Result<(), String>)
    ensures
        final(item).calls() == old(item).calls().push(LoginCall::Enable(r)),
{
    match item.launcher.enable() {
        Ok(()) => Ok(()),
        Err(err) => Err(err.to_string()),
    }
}

/// Calls auto-launch's `AutoLaunch::disable`, which removes the login item from the system:
/// the call is noted with its outcome. Whether it succeeds depends on the system, so nothing
/// more is stated of that.
#[verifier::external_body]
fn disable_login_item(item: &mut LoginItem) -> (r: Result<(), String>)
    ensures
        final(item).calls() == old(item).calls().push(LoginCall::Disable(r)),
{
    match item.launcher.disable() {
        Ok(()) => Ok(()),
        Err(err) => Err(err.to_string()),
    }
}

/// What the login item's answer means: on only where it said so without an error.
pub fn answer_is_on(answer: &Result<bool, String>) -> (r: bool)
    ensures
        r == (*answer == Ok::<bool, String>(true)),
{
    match answer {
        Ok(on) => *on,
        Err(_) => false,
    }
}

/// What turning start-at-login on or off comes to, once the login item answered whether it is
/// on (`on`, which only turning it off asks for).
#[derive(Clone, Debug, PartialEq, Eq)]
pub enum LoginItemStep {
    /// The app may not be registered from where it is
    Refuse(String),
    Enable,
    Disable,
    /// Turning off a login item that is off: nothing to do
    Nothing,
}

/// The step: turning on needs the app to be where it may be registered from, then registers;
/// turning off removes a login item that is on and leaves one that is off alone.
pub fn login_item_step(enabled: bool, location: &Result<(), String>, on: bool) -> (r: LoginItemStep)
    ensures
        r == if enabled {
            match *location {
                Err(e) => LoginItemStep::Refuse(e),
                Ok(_) => LoginItemStep::Enable,
            }
        } else if on {
            LoginItemStep::Disable
        } else {
            LoginItemStep::Nothing
        },
{
    if enabled {
        match location {
            Err(e) => LoginItemStep::Refuse(e.clone()),
            Ok(_) => LoginItemStep::Enable,
        }
    } else if on {
        LoginItemStep::Disable
    } else {
        LoginItemStep::Nothing
    }
}

/// Whether a refresh registers the login item again: only for an app that was moved and whose
/// login item is on.
pub fn reregister(moved: bool, on: bool) -> (r: bool)
    ensures
        r == (moved && on),
{
    moved && on
}

/// Whether the app registers itself to start with the system as it starts: only on its first
/// run, where the settings ask for it, and never from a debug build.
pub fn registers_at_first_run(first_run: bool, start_with_os: bool, debug_build: bool) -> (r: bool)
    ensures
        r == (first_run && start_with_os && !debug_build),
{
    first_run && start_with_os && !debug_build
}

/// The log `after` is the log `before` with one query after it, whatever it answered.
pub open spec fn asked_once(before: Seq<LoginCall>, after: Seq<LoginCall>) -> bool {
    after.len() == before.len() + 1 && after.drop_last() == before && after.last() is Query
}

/// Whether the last call of the log `calls` is a query that the login item answered with on.
pub open spec fn said_on(calls: Seq<LoginCall>) -> bool {
    calls.last() == LoginCall::Query(Ok(true))
}

/// Whether the app starts with the system: what the login item says, and no where there is no
/// login item or it cannot tell. The login item is asked where there is one.
pub fn is_enabled(item: &mut Result<LoginItem, String>) -> (r: bool)
    ensures
        (*old(item)) is Err ==> !r && *final(item) == *old(item),
        (*old(item)) is Ok ==> (*final(item)) is Ok && asked_once(
            login_calls(*old(item)),
            login_calls(*final(item)),
        ) && r == said_on(login_calls(*final(item))),
{
    match item {
        Ok(l) => {
            let answer = login_item_enabled(l);
            proof {
                assert(l.calls().drop_last() =~= old(item)->Ok_0.calls());
            }
            answer_is_on(&answer)
        },
        Err(_) => false,
    }
}

/// Turns starting with the system on or off. `location` is whether the app may be registered
/// from where it is, which only matters for turning it on. Turning it off asks the login item
/// first, and removes it only where it says it is on; one that is off is left alone. The
/// result is that of registering or removing it, where that was done.
pub fn set_enabled(item: &mut Result<LoginItem, String>, location: &Result<(), String>, enabled: bool) -> (r:
    Result<(), String>)
    ensures
        (*old(item)) is Err ==> *final(item) == *old(item),
        (*old(item)) is Ok ==> (*final(item)) is Ok,
        enabled && location is Err ==> r == *location && login_calls(*final(item)) == login_calls(
            *old(item),
        ),
        !(enabled && location is Err) && (*old(item)) is Err ==> r == Err::<(), String>(
            (*old(item))->Err_0,
        ),
        !(enabled && location is Err) && (*old(item)) is Ok ==> {
            let before = login_calls(*old(item));
            let after = login_calls(*final(item));
            if enabled {
                after == before.push(LoginCall::Enable(r))
            } else {
                ||| after == before.push(LoginCall::Query(Ok(true))).push(LoginCall::Disable(r))
                ||| (asked_once(before, after) && !said_on(after) && r == Ok::<(), String>(()))
            }
        },
{
    if enabled {
        if let Err(e) = location {
            return Err(e.clone());
        }
    }
    match item {
        Ok(l) => {
            let on = if enabled {
                false
            } else {
                let answer = login_item_enabled(l);
                proof {
                    assert(l.calls().drop_last() =~= old(item)->Ok_0.calls());
                }
                answer_is_on(&answer)
            };
            match login_item_step(enabled, location, on) {
                LoginItemStep::Refuse(e) => Err(e),
                LoginItemStep::Enable => enable_login_item(l),
                LoginItemStep::Disable => disable_login_item(l),
                LoginItemStep::Nothing => Ok(()),
            }
        },
        Err(e) => Err(e.clone()),
    }
}

/// Points an existing login item at this copy of the app where the app was moved (macOS): the
/// login item is asked first, and registered again where it says it is on and the app was
/// moved; nothing else is done, and a login item that is off is never created.
pub fn refresh(item: &mut Result<LoginItem, String>, location: &Result<(), String>, moved: bool) -> (r:
    Result<(), String>)
    ensures
        (*old(item)) is Err ==> r is Ok && *final(item) == *old(item),
        (*old(item)) is Ok ==> (*final(item)) is Ok && {
            let before = login_calls(*old(item));
            let after = login_calls(*final(item));
            let on = before.push(LoginCall::Query(Ok(true)));
            ||| (asked_once(before, after) && !(moved && said_on(after)) && r
                == Ok::<(), String>(()))
            ||| (moved && location is Err && after == on && r == *location)
            ||| (moved && location is Ok && after == on.push(LoginCall::Enable(r)))
        },
        !moved ==> r is Ok,
{
    let on = is_enabled(item);
    if reregister(moved, on) {
        proof {
            let before = login_calls(*old(item));
            let after = login_calls(*item);
            assert(after =~= before.push(LoginCall::Query(Ok(true))));
        }
        return set_enabled(item, location, true);
    }
    Ok(())
}

} // verus!
