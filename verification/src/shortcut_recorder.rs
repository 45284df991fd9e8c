//! Turning a key press into the accelerator string of a global shortcut.
use vstd::prelude::*;
use crate::text::{chars_equal, chars_of, push_str};

verus! {

broadcast use vstd::string::group_string_axioms;

/// The names of the modifier keys themselves, which never end a shortcut.
pub open spec fn modifier_key_names() -> Seq<Seq<char>> {
    seq![
        "Control_L"@, "Control_R"@, "Alt_L"@, "Alt_R"@,
        "Shift_L"@, "Shift_R"@, "Super_L"@, "Super_R"@,
    ]
}

/// The modifiers held, as accelerator prefixes in a fixed order.
pub open spec fn modifier_prefix(ctrl: bool, alt: bool, shift: bool, sup: bool) -> Seq<char> {
    (if ctrl { "<Control>"@ } else { Seq::empty() })
        + (if alt { "<Alt>"@ } else { Seq::empty() })
        + (if shift { "<Shift>"@ } else { Seq::empty() })
        + (if sup { "<Super>"@ } else { Seq::empty() })
}

/// The shortcut a key press records: none without a modifier unless the key
/// is a function key (its name starts with `F`), none for a bare modifier key,
/// else the modifier prefixes followed by the key's name.
pub open spec fn accelerator_of(
    ctrl: bool,
    alt: bool,
    shift: bool,
    sup: bool,
    key: Option<Seq<char>>,
) -> Option<Seq<char>> {
    let no_modifier = !(ctrl || alt || shift || sup);
    let function_key = match key {
        Some(n) => n.len() > 0 && n[0] == 'F',
        None => false,
    };
    if no_modifier && !function_key {
        None
    } else {
        match key {
            Some(n) => if modifier_key_names().contains(n) {
                None
            } else {
                let a = modifier_prefix(ctrl, alt, shift, sup) + n;
                if a.len() > 0 { Some(a) } else { None }
            },
            None => {
                let a = modifier_prefix(ctrl, alt, shift, sup);
                if a.len() > 0 { Some(a) } else { None }
            },
        }
    }
}

/// Pressing a modifier key itself (Control, Alt, Shift or Super, left or
/// right) never records a shortcut, whatever modifiers are held: recording
/// waits for the key that completes the shortcut. Any other key pressed with
/// at least one modifier held is recorded as the held modifiers' prefixes
/// followed by the key's name.
pub proof fn lemma_modifier_keys_wait(ctrl: bool, alt: bool, shift: bool, sup: bool, key: Seq<char>)
    ensures
        ({
            ||| key == "Control_L"@ || key == "Control_R"@
            ||| key == "Alt_L"@ || key == "Alt_R"@
            ||| key == "Shift_L"@ || key == "Shift_R"@
            ||| key == "Super_L"@ || key == "Super_R"@
        }) ==> accelerator_of(ctrl, alt, shift, sup, Some(key)) is None,
        !({
            ||| key == "Control_L"@ || key == "Control_R"@
            ||| key == "Alt_L"@ || key == "Alt_R"@
            ||| key == "Shift_L"@ || key == "Shift_R"@
            ||| key == "Super_L"@ || key == "Super_R"@
        }) && (ctrl || alt || shift || sup) ==> accelerator_of(ctrl, alt, shift, sup, Some(key)) == Some(
            modifier_prefix(ctrl, alt, shift, sup) + key,
        ),
{
    let names = modifier_key_names();
    assert(names[0] == "Control_L"@ && names[1] == "Control_R"@);
    assert(names[2] == "Alt_L"@ && names[3] == "Alt_R"@);
    assert(names[4] == "Shift_L"@ && names[5] == "Shift_R"@);
    assert(names[6] == "Super_L"@ && names[7] == "Super_R"@);
    if names.contains(key) {
        let k = choose|k: int| 0 <= k < names.len() && names[k] == key;
        assert(0 <= k < 8);
    }
    if ctrl || alt || shift || sup {
        reveal_strlit("<Control>");
        reveal_strlit("<Alt>");
        reveal_strlit("<Shift>");
        reveal_strlit("<Super>");
        assert(modifier_prefix(ctrl, alt, shift, sup).len() > 0);
    }
}

/// Whether `name` is one of the modifier keys.
fn is_modifier_key(name: &str) -> (r: bool)
    ensures
        r == modifier_key_names().contains(name@),
{
    let n = chars_of(name);
    let names: [&str; 8] = [
        "Control_L", "Control_R", "Alt_L", "Alt_R", "Shift_L", "Shift_R", "Super_L", "Super_R",
    ];
    let mut i: usize = 0;
    while i < 8
        invariant
            0 <= i <= 8,
            n@ == name@,
            forall|k: int| 0 <= k < 8 ==> (#[trigger] names[k])@ == modifier_key_names()[k],
            forall|k: int| 0 <= k < i ==> modifier_key_names()[k] != name@,
        decreases 8 - i,
    {
        let m = chars_of(names[i]);
        if chars_equal(n.as_slice(), m.as_slice()) {
            return true;
        }
        i = i + 1;
    }
    assert(!modifier_key_names().contains(name@)) by {
        if modifier_key_names().contains(name@) {
            let k = choose|k: int| 0 <= k < 8 && modifier_key_names()[k] == name@;
        }
    }
    false
}

/// The accelerator recorded for a key press with the given modifiers and key
/// name (see `accelerator_of`); `None` lets the press through unrecorded.
pub fn accelerator(ctrl: bool, alt: bool, shift: bool, sup: bool, key_name: Option<&str>) -> (r: Option<String>)
    ensures
        match r {
            Some(s) => accelerator_of(ctrl, alt, shift, sup, match key_name {
                Some(n) => Some(n@),
                None => None,
            }) == Some(s@),
            None => accelerator_of(ctrl, alt, shift, sup, match key_name {
                Some(n) => Some(n@),
                None => None,
            }) is None,
        },
{
    let no_modifier = !(ctrl || alt || shift || sup);
    let function_key = match key_name {
        Some(n) => {
            let cs = chars_of(n);
            cs.len() > 0 && cs[0] == 'F'
        },
        None => false,
    };
    if no_modifier && !function_key {
        return None;
    }
    let mut accel = String::new();
    if ctrl {
        push_str(&mut accel, "<Control>");
    }
    if alt {
        push_str(&mut accel, "<Alt>");
    }
    if shift {
        push_str(&mut accel, "<Shift>");
    }
    if sup {
        push_str(&mut accel, "<Super>");
    }
    assert(accel@ =~= modifier_prefix(ctrl, alt, shift, sup));
    match key_name {
        Some(n) => {
            if is_modifier_key(n) {
                return None;
            }
            push_str(&mut accel, n);
        },
        None => {},
    }
    if accel.as_str().is_empty() {
        None
    } else {
        Some(accel)
    }
}

} // verus!
