//! Global shortcuts: which of the settings' shortcuts to register, the text a pressed key
//! combination is saved as, and which action a registered shortcut stands for.

use global_hotkey::hotkey::HotKey;
use vstd::prelude::*;
use vstd::string::StrSliceExecFns;

use crate::panel::HotkeyAction;
use crate::settings::Settings;
use crate::display_config::upper_all;
use crate::text::{blank, is_blank, spec_contains};

verus! {

#[verifier::external_type_specification]
#[verifier::external_body]
pub struct ExHotKey(HotKey);

/// What global_hotkey's parser makes of a text: `Ok` where it reads a hotkey in it, else the
/// message of its error.
pub uninterp spec fn hotkey_parse(text: Seq<char>) -> Result<(), Seq<char>>;

/// The id global_hotkey gives the hotkey it reads in a text: made from the modifiers' bits and
/// the key's code when the hotkey is built, and reported with each press of it.
pub uninterp spec fn hotkey_id(text: Seq<char>) -> u32;

/// Whether the text may name the "command or control" modifier, which global_hotkey reads as
/// Command on macOS and as Control elsewhere, so that its id depends on the platform. Each of
/// its spellings (CommandOrControl, CommandOrCtrl, CmdOrCtrl, CmdOrControl) holds "ORC".
pub open spec fn names_cmd_or_ctrl(text: Seq<char>) -> bool {
    spec_contains(upper_all(text), "ORC"@)
}

/// Calls global_hotkey's `HotKey::from_str`, which reads modifiers and one key joined by `+`,
/// and hands back the hotkey with its `id` field. The contract ties success and the error's
/// message to the text through `hotkey_parse`, and the id through `hotkey_id` where the text
/// cannot name the platform's modifier; it says nothing else of the hotkey.
#[verifier::external_body]
fn parse_with_global_hotkey(text: &str) -> (r: Result<(HotKey, u32), String>)
    ensures
        match r {
            Ok((_, id)) => hotkey_parse(text@) is Ok && (!names_cmd_or_ctrl(text@) ==> id
                == hotkey_id(text@)),
            Err(message) => hotkey_parse(text@) == Err::<(), Seq<char>>(message@),
        },
{
    match text.parse::<HotKey>() {
        Ok(key) => Ok((key, key.id)),
        Err(err) => Err(err.to_string()),
    }
}

/// A shortcut's text as a hotkey and its id; else the text, `": "` and global_hotkey's message.
pub fn parse_hotkey(text: &str) -> (r: Result<(HotKey, u32), String>)
    ensures
        r is Ok <==> hotkey_parse(text@) is Ok,
        r matches Ok((_, id)) ==> (!names_cmd_or_ctrl(text@) ==> id == hotkey_id(text@)),
        r matches Err(e) ==> hotkey_parse(text@) matches Err(m) && e@ == text@ + ": "@ + m,
{
    proof {
        reveal_strlit(": ");
    }
    match parse_with_global_hotkey(text) {
        Ok(parsed) => Ok(parsed),
        Err(message) => {
            let mut e = String::from_str(text);
            e.append(": ");
            e.append(message.as_str());
            Err(e)
        },
    }
}

pub open spec fn keep(text: Seq<char>, action: HotkeyAction) -> Seq<(Seq<char>, HotkeyAction)> {
    if is_blank(text) {
        Seq::empty()
    } else {
        seq![(text, action)]
    }
}

/// The shortcuts to register, in order: none while shortcuts are off, else each one whose
/// text is not blank.
pub open spec fn spec_wanted(s: Settings) -> Seq<(Seq<char>, HotkeyAction)> {
    if !s.hotkeys_enabled {
        Seq::empty()
    } else {
        keep(s.hotkey_up@, HotkeyAction::BrightnessUp) + keep(
            s.hotkey_down@,
            HotkeyAction::BrightnessDown,
        ) + keep(s.hotkey_off@, HotkeyAction::TurnOff)
    }
}

pub open spec fn wanted_view(w: Seq<(String, HotkeyAction)>) -> Seq<(Seq<char>, HotkeyAction)> {
    w.map_values(|e: (String, HotkeyAction)| (e.0@, e.1))
}

fn push_unless_blank(out: &mut Vec<(String, HotkeyAction)>, text: &String, action: HotkeyAction)
    ensures
        wanted_view(final(out)@) == wanted_view(old(out)@) + keep(text@, action),
{
    let ghost before = out@;
    if !blank(text.as_str()) {
        out.push((text.clone(), action));
        assert(wanted_view(out@) =~= wanted_view(before) + keep(text@, action));
    } else {
        assert(wanted_view(out@) =~= wanted_view(before) + keep(text@, action));
    }
}

/// The shortcuts of the settings to register, with the action of each.
pub fn wanted_hotkeys(settings: &Settings) -> (r: Vec<(String, HotkeyAction)>)
    ensures
        wanted_view(r@) == spec_wanted(*settings),
{
    let mut r: Vec<(String, HotkeyAction)> = Vec::new();
    if !settings.hotkeys_enabled {
        assert(wanted_view(r@) =~= Seq::empty());
        return r;
    }
    assert(wanted_view(r@) =~= Seq::empty());
    push_unless_blank(&mut r, &settings.hotkey_up, HotkeyAction::BrightnessUp);
    push_unless_blank(&mut r, &settings.hotkey_down, HotkeyAction::BrightnessDown);
    push_unless_blank(&mut r, &settings.hotkey_off, HotkeyAction::TurnOff);
    assert(wanted_view(r@) =~= spec_wanted(*settings));
    r
}

/// The shortcuts registered with the system, and what went wrong with the others.
pub struct Hotkeys {
    registered: Vec<(HotKey, u32, HotkeyAction)>,
    errors: Vec<String>,
}

pub open spec fn errors_view(errors: Seq<String>) -> Seq<Seq<char>> {
    errors.map_values(|e: String| e@)
}

/// The action of the first binding with the id.
pub open spec fn first_action(bindings: Seq<(u32, HotkeyAction)>, id: u32) -> Option<HotkeyAction>
    decreases bindings.len(),
{
    if bindings.len() == 0 {
        None
    } else if bindings[0].0 == id {
        Some(bindings[0].1)
    } else {
        first_action(bindings.drop_first(), id)
    }
}

impl Hotkeys {
    /// Each registered shortcut's id and action, in the order they were registered.
    pub closed spec fn bindings(&self) -> Seq<(u32, HotkeyAction)> {
        self.registered@.map_values(|e: (HotKey, u32, HotkeyAction)| (e.1, e.2))
    }

    /// What went wrong with the shortcuts that are not registered, in order.
    pub closed spec fn error_texts(&self) -> Seq<Seq<char>> {
        errors_view(self.errors@)
    }

    /// The registered hotkeys, in the order they were registered.
    pub closed spec fn keys(&self) -> Seq<HotKey> {
        self.registered@.map_values(|e: (HotKey, u32, HotkeyAction)| e.0)
    }

    pub fn new() -> (r: Self)
        ensures
            r.bindings() == Seq::<(u32, HotkeyAction)>::empty(),
            r.keys() == Seq::<HotKey>::empty(),
            r.error_texts() == Seq::<Seq<char>>::empty(),
    {
        let r = Hotkeys { registered: Vec::new(), errors: Vec::new() };
        assert(r.bindings() =~= Seq::<(u32, HotkeyAction)>::empty());
        assert(r.error_texts() =~= Seq::<Seq<char>>::empty());
        assert(r.keys() =~= Seq::<HotKey>::empty());
        r
    }

    /// Forgets every shortcut and error; hands back the hotkeys to unregister.
    pub fn clear(&mut self) -> (keys: Vec<HotKey>)
        ensures
            keys@ == old(self).keys(),
            final(self).bindings() == Seq::<(u32, HotkeyAction)>::empty(),
            final(self).keys() == Seq::<HotKey>::empty(),
            final(self).error_texts() == Seq::<Seq<char>>::empty(),
    {
        let mut keys: Vec<HotKey> = Vec::new();
        for i in 0..self.registered.len()
            invariant
                keys@.len() == i,
                forall|j: int| 0 <= j < i ==> keys@[j] == #[trigger] self.registered@[j].0,
        {
            keys.push(self.registered[i].0);
        }
        assert(keys@ =~= old(self).keys());
        self.registered = Vec::new();
        self.errors = Vec::new();
        assert(self.bindings() =~= Seq::<(u32, HotkeyAction)>::empty());
        assert(self.keys() =~= Seq::<HotKey>::empty());
        assert(self.error_texts() =~= Seq::<Seq<char>>::empty());
        keys
    }

    /// Notes a hotkey the system registered for an action, under the id global_hotkey gave it
    /// (as `prepare` hands it out).
    pub fn record(&mut self, key: HotKey, id: u32, action: HotkeyAction)
        ensures
            final(self).keys() == old(self).keys().push(key),
            final(self).bindings() == old(self).bindings().push((id, action)),
            final(self).error_texts() == old(self).error_texts(),
    {
        self.registered.push((key, id, action));
        assert(self.keys() =~= old(self).keys().push(key));
        assert(self.bindings() =~= old(self).bindings().push((id, action)));
    }

    /// Reads a wanted shortcut's text as a hotkey to register; where global_hotkey cannot read
    /// it, notes the error (the text, `": "` and global_hotkey's message) and gives none.
    pub fn prepare(&mut self, text: &str) -> (r: Option<(HotKey, u32)>)
        ensures
            r is Some <==> hotkey_parse(text@) is Ok,
            r matches Some((_, id)) ==> (!names_cmd_or_ctrl(text@) ==> id == hotkey_id(text@)),
            r is Some ==> final(self).error_texts() == old(self).error_texts(),
            r is None ==> (hotkey_parse(text@) matches Err(m) && final(self).error_texts()
                == old(self).error_texts().push(text@ + ": "@ + m)),
            final(self).bindings() == old(self).bindings(),
            final(self).keys() == old(self).keys(),
    {
        match parse_hotkey(text) {
            Ok(parsed) => Some(parsed),
            Err(e) => {
                let ghost before = self.errors@;
                self.errors.push(e);
                assert(errors_view(self.errors@) =~= errors_view(before).push(errors_view(self.errors@).last()));
                None
            },
        }
    }

    /// Notes that a shortcut failed: its text, `": "` and the message.
    pub fn record_error(&mut self, text: &str, message: &str)
        ensures
            final(self).error_texts() == old(self).error_texts().push(text@ + ": "@ + message@),
            final(self).bindings() == old(self).bindings(),
            final(self).keys() == old(self).keys(),
    {
        proof {
            reveal_strlit(": ");
        }
        let mut e = String::from_str(text);
        e.append(": ");
        e.append(message);
        let ghost before = self.errors@;
        self.errors.push(e);
        assert(errors_view(self.errors@) =~= errors_view(before).push(text@ + ": "@ + message@));
    }

    /// What went wrong with the shortcuts that are not registered.
    pub fn errors(&self) -> (r: &Vec<String>)
        ensures
            errors_view(r@) == self.error_texts(),
    {
        &self.errors
    }

    /// The action of the registered shortcut with the id global_hotkey reported.
    pub fn action(&self, id: u32) -> (r: Option<HotkeyAction>)
        ensures
            r == first_action(self.bindings(), id),
    {
        let n = self.registered.len();
        let ghost b = self.bindings();
        assert(b.skip(0) =~= b);
        for i in 0..n
            invariant
                n == self.registered@.len(),
                b == self.bindings(),
                first_action(b, id) == first_action(b.skip(i as int), id),
        {
            assert(b.skip(i as int)[0] == (self.registered@[i as int].1, self.registered@[i as int].2));
            assert(b.skip(i as int).drop_first() =~= b.skip(i + 1));
            if self.registered[i].1 == id {
                return Some(self.registered[i].2);
            }
        }
        assert(b.skip(n as int).len() == 0);
        None
    }
}

/// A shortcut recorded under an id is what a press with that id stands for, unless an earlier
/// shortcut holds the same id.
pub proof fn law_recorded_shortcut_answers(
    bindings: Seq<(u32, HotkeyAction)>,
    id: u32,
    action: HotkeyAction,
)
    requires
        forall|i: int| 0 <= i < bindings.len() ==> (#[trigger] bindings[i]).0 != id,
    ensures
        first_action(bindings.push((id, action)), id) == Some(action),
    decreases bindings.len(),
{
    if bindings.len() > 0 {
        assert(bindings.push((id, action)).drop_first() =~= bindings.drop_first().push((id, action)));
        assert forall|i: int| 0 <= i < bindings.drop_first().len() implies (#[trigger] bindings.drop_first()[i]).0 != id by {
            assert(bindings.drop_first()[i] == bindings[i + 1]);
        }
        law_recorded_shortcut_answers(bindings.drop_first(), id, action);
    }
}

/// Whether a key's name is F and digits, as the function keys are named.
pub open spec fn is_function_key(name: Seq<char>) -> bool {
    &&& name.len() > 1
    &&& name[0] == 'F'
    &&& forall|i: int| 1 <= i < name.len() ==> '0' <= #[trigger] name[i] <= '9'
}

/// The held modifiers, each followed by `+`, in the order Ctrl, Alt, Shift, Cmd.
pub open spec fn modifier_prefix(ctrl: bool, alt: bool, shift: bool, cmd: bool) -> Seq<char> {
    (if ctrl {
        "Ctrl+"@
    } else {
        Seq::empty()
    }) + (if alt {
        "Alt+"@
    } else {
        Seq::empty()
    }) + (if shift {
        "Shift+"@
    } else {
        Seq::empty()
    }) + (if cmd {
        "Cmd+"@
    } else {
        Seq::empty()
    })
}

/// The text a pressed key combination is saved as: none without a modifier unless it is a
/// function key; the key by its name, else its symbol, whichever global_hotkey reads; and only
/// if global_hotkey reads the whole combination.
pub open spec fn spec_hotkey_text(
    name: Seq<char>,
    symbol: Seq<char>,
    ctrl: bool,
    alt: bool,
    shift: bool,
    cmd: bool,
) -> Option<Seq<char>> {
    if !(ctrl || alt || shift || cmd) && !is_function_key(name) {
        None
    } else {
        let key = if hotkey_parse(name) is Ok {
            Some(name)
        } else if hotkey_parse(symbol) is Ok {
            Some(symbol)
        } else {
            None
        };
        match key {
            None => None,
            Some(k) => {
                let text = modifier_prefix(ctrl, alt, shift, cmd) + k;
                if hotkey_parse(text) is Ok {
                    Some(text)
                } else {
                    None
                }
            },
        }
    }
}

fn function_key(name: &str) -> (r: bool)
    ensures
        r == is_function_key(name@),
{
    let n = name.unicode_len();
    if n <= 1 || name.get_char(0) != 'F' {
        return false;
    }
    for i in 1..n
        invariant
            n == name@.len(),
            forall|j: int| 1 <= j < i ==> '0' <= #[trigger] name@[j] <= '9',
    {
        let c = name.get_char(i);
        if !('0' <= c && c <= '9') {
            return false;
        }
    }
    true
}

/// The text a pressed key combination is saved as, from the key's name and symbol and the
/// modifiers held (Cmd only where the platform has it).
pub fn hotkey_text(name: &str, symbol: &str, ctrl: bool, alt: bool, shift: bool, cmd: bool) -> (r:
    Option<String>)
    ensures
        match r {
            Some(t) => spec_hotkey_text(name@, symbol@, ctrl, alt, shift, cmd) == Some(t@),
            None => spec_hotkey_text(name@, symbol@, ctrl, alt, shift, cmd) is None,
        },
{
    proof {
        reveal_strlit("Ctrl+");
        reveal_strlit("Alt+");
        reveal_strlit("Shift+");
        reveal_strlit("Cmd+");
    }
    if !(ctrl || alt || shift || cmd) && !function_key(name) {
        return None;
    }
    let key = if parse_with_global_hotkey(name).is_ok() {
        name
    } else if parse_with_global_hotkey(symbol).is_ok() {
        symbol
    } else {
        return None;
    };
    let mut text = String::new();
    if ctrl {
        text.append("Ctrl+");
    }
    if alt {
        text.append("Alt+");
    }
    if shift {
        text.append("Shift+");
    }
    if cmd {
        text.append("Cmd+");
    }
    text.append(key);
    assert(text@ =~= modifier_prefix(ctrl, alt, shift, cmd) + key@);
    if parse_with_global_hotkey(text.as_str()).is_ok() {
        Some(text)
    } else {
        None
    }
}

} // verus!
