//! What the client's own session files say about a session: the client
//! keeps one JSON file per running session, with its `sessionId`, its `cwd`
//! and the `pid` of its process. The files are read elsewhere; here they are
//! handed over as (file name, text) pairs, in the order the directory lists
//! them.

use vstd::prelude::*;
use crate::json::{
    JsonValue, json_get, json_str, json_u64, names_session, parse_json, parsed_json,
    session_file_pid, session_file_project_dir,
};
use crate::text::{chars_of, contains_text, occurs_in, opt_string};

verus! {

/// The file name ends in the extension `json`: a non-empty stem, then
/// `.json`.
pub open spec fn is_json_name(name: Seq<char>) -> bool {
    name.len() > 5 && name.skip(name.len() - 5) == seq!['.', 'j', 's', 'o', 'n']
}

/// Whether `name` is the name of a session file: its extension is `json`.
pub fn is_json_file_name(name: &str) -> (r: bool)
    ensures
        r == is_json_name(name@),
{
    let cs = chars_of(name);
    let n = cs.len();
    if n <= 5 {
        return false;
    }
    let r = cs[n - 5] == '.' && cs[n - 4] == 'j' && cs[n - 3] == 's' && cs[n - 2] == 'o' && cs[n - 1] == 'n';
    proof {
        let tail = name@.skip(n - 5);
        if r {
            assert(tail =~= seq!['.', 'j', 's', 'o', 'n']);
        } else {
            if tail == seq!['.', 'j', 's', 'o', 'n'] {
                assert(tail[0] == name@[n - 5]);
                assert(tail[1] == name@[n - 4]);
                assert(tail[2] == name@[n - 3]);
                assert(tail[3] == name@[n - 2]);
                assert(tail[4] == name@[n - 1]);
            }
        }
    }
    r
}

/// The document that a file is taken to be about `session_id`: a session
/// file whose text mentions the id and parses as JSON.
pub open spec fn session_document(name: Seq<char>, text: Seq<char>, session_id: Seq<char>) -> Option<JsonValue> {
    if is_json_name(name) && occurs_in(session_id, text) {
        parsed_json(text)
    } else {
        None
    }
}

/// What one file says of the project directory of `session_id`: `None`
/// when it is not about that session, else its `cwd` (when a string).
pub open spec fn project_dir_answer(name: Seq<char>, text: Seq<char>, session_id: Seq<char>) -> Option<Option<Seq<char>>> {
    match session_document(name, text, session_id) {
        Some(v) => if names_session(v, session_id) {
            Some(json_str(json_get(v, "cwd"@)))
        } else {
            None
        },
        None => None,
    }
}

/// What one file says of the process of `session_id`: `None` when it is not
/// about that session, else its `pid` (when an integer that fits a `u64`).
pub open spec fn pid_answer(name: Seq<char>, text: Seq<char>, session_id: Seq<char>) -> Option<Option<u64>> {
    match session_document(name, text, session_id) {
        Some(v) => if names_session(v, session_id) {
            Some(json_u64(json_get(v, "pid"@)))
        } else {
            None
        },
        None => None,
    }
}

/// The document of a file, as `session_document` describes it.
fn read_session_document(name: &str, text: &str, session_id: &str) -> (r: Option<JsonValue>)
    ensures
        r == session_document(name@, text@, session_id@),
{
    if is_json_file_name(name) && contains_text(text, session_id) {
        parse_json(text)
    } else {
        None
    }
}

/// What the file `name` with text `text` says of the project directory of
/// `session_id`: `None` when the file is not about it (the search goes on).
pub fn session_text_project_dir(name: &str, text: &str, session_id: &str) -> (r: Option<Option<String>>)
    ensures
        match r {
            Some(dir) => project_dir_answer(name@, text@, session_id@) == Some(opt_string(dir)),
            None => project_dir_answer(name@, text@, session_id@) is None,
        },
{
    match read_session_document(name, text, session_id) {
        Some(v) => session_file_project_dir(&v, session_id),
        None => None,
    }
}

/// What the file `name` with text `text` says of the process of
/// `session_id`: `None` when the file is not about it (the search goes on).
pub fn session_text_pid(name: &str, text: &str, session_id: &str) -> (r: Option<Option<u64>>)
    ensures
        r == pid_answer(name@, text@, session_id@),
{
    match read_session_document(name, text, session_id) {
        Some(v) => session_file_pid(&v, session_id),
        None => None,
    }
}

/// The (name, text) pairs of a list of files.
pub open spec fn file_views(files: Seq<(String, String)>) -> Seq<(Seq<char>, Seq<char>)> {
    files.map_values(|f: (String, String)| (f.0@, f.1@))
}

/// The project directory of `session_id` by the first file that is about
/// it, if any.
pub open spec fn project_dir_scan(files: Seq<(Seq<char>, Seq<char>)>, session_id: Seq<char>) -> Option<Seq<char>>
    decreases files.len(),
{
    if files.len() == 0 {
        None
    } else {
        match project_dir_answer(files[0].0, files[0].1, session_id) {
            Some(dir) => dir,
            None => project_dir_scan(files.drop_first(), session_id),
        }
    }
}

/// What the first file that is about `session_id` says of its process:
/// `None` when no file is about it.
pub open spec fn pid_scan(files: Seq<(Seq<char>, Seq<char>)>, session_id: Seq<char>) -> Option<Option<u64>>
    decreases files.len(),
{
    if files.len() == 0 {
        None
    } else {
        match pid_answer(files[0].0, files[0].1, session_id) {
            Some(pid) => Some(pid),
            None => pid_scan(files.drop_first(), session_id),
        }
    }
}

/// The project directory that the client's session files record for
/// `session_id`: the `cwd` of the first file about it.
pub fn find_project_dir_in_session_files(files: &Vec<(String, String)>, session_id: &str) -> (r: Option<String>)
    ensures
        opt_string(r) == project_dir_scan(file_views(files@), session_id@),
{
    let ghost all = file_views(files@);
    let mut i: usize = 0;
    proof {
        assert(all.skip(0) =~= all);
    }
    while i < files.len()
        invariant
            all == file_views(files@),
            i <= files.len(),
            project_dir_scan(all, session_id@) == project_dir_scan(all.skip(i as int), session_id@),
        decreases files.len() - i,
    {
        proof {
            let t = all.skip(i as int);
            assert(t[0] == (files@[i as int].0@, files@[i as int].1@));
            assert(t.drop_first() =~= all.skip(i + 1));
        }
        match session_text_project_dir(files[i].0.as_str(), files[i].1.as_str(), session_id) {
            Some(dir) => return dir,
            None => {},
        }
        i = i + 1;
    }
    None
}

/// What the client's session files say of the process of `session_id`:
/// the `pid` answer of the first file about it, `None` when none is.
pub fn find_pid_in_session_files(files: &Vec<(String, String)>, session_id: &str) -> (r: Option<Option<u64>>)
    ensures
        r == pid_scan(file_views(files@), session_id@),
{
    let ghost all = file_views(files@);
    let mut i: usize = 0;
    proof {
        assert(all.skip(0) =~= all);
    }
    while i < files.len()
        invariant
            all == file_views(files@),
            i <= files.len(),
            pid_scan(all, session_id@) == pid_scan(all.skip(i as int), session_id@),
        decreases files.len() - i,
    {
        proof {
            let t = all.skip(i as int);
            assert(t[0] == (files@[i as int].0@, files@[i as int].1@));
            assert(t.drop_first() =~= all.skip(i + 1));
        }
        match session_text_pid(files[i].0.as_str(), files[i].1.as_str(), session_id) {
            Some(pid) => return Some(pid),
            None => {},
        }
        i = i + 1;
    }
    None
}

/// Whether a session's client still runs, from what its session file says
/// and from the probe of its process: alive when no file is about it, when
/// the file records no pid, or when the probe could not run (`probe` is
/// `None`); otherwise the probe's answer.
pub fn session_alive(found: Option<Option<u64>>, probe: Option<bool>) -> (r: bool)
    ensures
        r == match found {
            Some(Some(_)) => match probe {
                Some(b) => b,
                None => true,
            },
            _ => true,
        },
{
    match found {
        Some(Some(_)) => match probe {
            Some(b) => b,
            None => true,
        },
        _ => true,
    }
}

} // verus!
