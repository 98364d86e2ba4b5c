//! Reading what the system tools print: the process list of `pgrep` and the
//! application path that Spotlight finds.

use vstd::prelude::*;

use crate::text::{lines, lines_of, parse_u32, parsed_u32, trim, trimmed};

verus! {

/// Whether a line of `pgrep` output names a process other than `my_pid`: the line,
/// trimmed, reads as a `u32` that differs from it.
pub open spec fn names_other_process(line: Seq<char>, my_pid: u32) -> bool {
    match parsed_u32(trimmed(line)) {
        Some(p) => p != my_pid,
        None => false,
    }
}

/// Whether the output of `pgrep` lists another instance of this program: some line
/// reads as a process id other than `my_pid`.  Lines that do not read as a number are
/// passed over.
pub fn other_instance_running(pgrep_output: &str, my_pid: u32) -> (r: bool)
    ensures
        r == exists|i: int|
            0 <= i < lines_of(pgrep_output@).len() && names_other_process(
                #[trigger] lines_of(pgrep_output@)[i],
                my_pid,
            ),
{
    let ls = lines(pgrep_output);
    let ghost lv = lines_of(pgrep_output@);
    let mut i: usize = 0;
    while i < ls.len()
        invariant
            ls@.map_values(|x: String| x@) == lv,
            lv == lines_of(pgrep_output@),
            i <= ls@.len(),
            forall|j: int| 0 <= j < i ==> !names_other_process(#[trigger] lv[j], my_pid),
        decreases ls.len() - i,
    {
        assert(lv[i as int] == ls@[i as int]@);
        let t = trim(ls[i].as_str());
        match parse_u32(t.as_str()) {
            Some(p) => {
                if p != my_pid {
                    assert(names_other_process(lv[i as int], my_pid));
                    assert(lv.len() == ls@.len());
                    return true;
                }
            },
            None => {},
        }
        i = i + 1;
    }
    false
}

/// The first line of `s`, or nothing when `s` has no line.
pub open spec fn first_line(s: Seq<char>) -> Seq<char> {
    if lines_of(s).len() > 0 {
        lines_of(s)[0]
    } else {
        Seq::empty()
    }
}

/// The application path that Spotlight printed: its first line, trimmed.
pub open spec fn found_app_path(spotlight_output: Seq<char>) -> Seq<char> {
    trimmed(first_line(spotlight_output))
}

/// The AppleScript that adds the application at `app_path` to the login items, hidden.
pub open spec fn add_login_item_script(app_path: Seq<char>) -> Seq<char> {
    "tell application \"System Events\" to make login item at end with properties {path:\""@
        + app_path + "\", hidden:true}"@
}

/// The AppleScript that removes the application from the login items.
pub open spec fn remove_login_item_script() -> Seq<char> {
    "tell application \"System Events\" to delete login item \"Vivaldi Sync\""@
}

/// The AppleScript that turns the start at login on or off, given what Spotlight
/// printed when asked for the application; or the error text when it found nothing.
pub fn login_item_script(enable: bool, spotlight_output: &str) -> (r: Result<String, String>)
    ensures
        match r {
            Ok(script) => {
                &&& found_app_path(spotlight_output@).len() > 0
                &&& script@ == if enable {
                    add_login_item_script(found_app_path(spotlight_output@))
                } else {
                    remove_login_item_script()
                }
            },
            Err(e) => {
                &&& found_app_path(spotlight_output@).len() == 0
                &&& e@ == "App not found via Spotlight. Try launching from /Applications first."@
            },
        },
{
    let ls = lines(spotlight_output);
    let app_path = if ls.len() > 0 {
        assert(ls@.map_values(|x: String| x@)[0] == ls@[0]@);
        trim(ls[0].as_str())
    } else {
        trim("")
    };
    proof {
        if ls@.len() == 0 {
            assert(""@ =~= Seq::<char>::empty()) by {
                reveal_strlit("");
            }
        }
    }
    if app_path.unicode_len() == 0 {
        return Err(
            String::from_str("App not found via Spotlight. Try launching from /Applications first."),
        );
    }
    let script = if enable {
        let mut s = String::from_str(
            "tell application \"System Events\" to make login item at end with properties {path:\"",
        );
        s.append(app_path.as_str());
        s.append("\", hidden:true}");
        s
    } else {
        String::from_str("tell application \"System Events\" to delete login item \"Vivaldi Sync\"")
    };
    Ok(script)
}

} // verus!
