//! Text helpers of the interactive shell: the prompt path and messages.
use vstd::prelude::*;
use vstd::string::{StrSliceExecFns, StringExecFns};

verus! {

/// Position of the first `/` in `s`, or -1.
pub open spec fn first_slash(s: Seq<char>) -> int
    decreases s.len(),
{
    if s.len() == 0 {
        -1
    } else if s[0] == '/' {
        0
    } else if first_slash(s.drop_first()) < 0 {
        -1
    } else {
        first_slash(s.drop_first()) + 1
    }
}

/// The first segment of a prompt path: everything before the first `/`.
pub open spec fn root_segment(s: Seq<char>) -> Seq<char> {
    if first_slash(s) < 0 {
        s
    } else {
        s.subrange(0, first_slash(s))
    }
}

proof fn lemma_first_slash(s: Seq<char>)
    ensures
        -1 <= first_slash(s) < s.len(),
        first_slash(s) >= 0 ==> s[first_slash(s)] == '/',
        forall|j: int| 0 <= j < s.len() && (first_slash(s) < 0 || j < first_slash(s)) ==> s[j] != '/',
    decreases s.len(),
{
    if s.len() > 0 && s[0] != '/' {
        lemma_first_slash(s.drop_first());
        assert forall|j: int| 0 <= j < s.len() && (first_slash(s) < 0 || j < first_slash(s)) implies s[j] != '/' by {
            if j > 0 {
                assert(s[j] == s.drop_first()[j - 1]);
            }
        }
    }
}

fn root_segment_of(path: &str) -> (r: String)
    ensures
        r@ == root_segment(path@),
{
    let n = path.unicode_len();
    let mut i: usize = 0;
    proof {
        lemma_first_slash(path@);
    }
    while i < n
        invariant
            n == path@.len(),
            0 <= i <= n,
            forall|j: int| 0 <= j < i ==> path@[j] != '/',
            -1 <= first_slash(path@) < path@.len(),
            first_slash(path@) >= 0 ==> path@[first_slash(path@)] == '/',
            forall|j: int| 0 <= j < path@.len() && (first_slash(path@) < 0 || j < first_slash(path@)) ==> path@[j] != '/',
        decreases n - i,
    {
        if path.get_char(i) == '/' {
            assert(first_slash(path@) == i);
            return String::from_str(path.substring_char(0, i));
        }
        i = i + 1;
    }
    assert(first_slash(path@) < 0);
    String::from_str(path)
}

/// Enters `name` in the prompt path: keeps the root segment and puts
/// `name` after it, replacing any deeper segment.
pub fn push_path(path: &mut String, name: &str)
    ensures
        final(path)@ == root_segment(old(path)@) + seq!['/'] + name@,
{
    let mut next = root_segment_of(path.as_str());
    proof {
        reveal_strlit("/");
    }
    next.append("/");
    next.append(name);
    *path = next;
}

/// Leaves to the root segment of the prompt path.
pub fn pop_path(path: &mut String)
    ensures
        final(path)@ == root_segment(old(path)@),
{
    let root = root_segment_of(path.as_str());
    *path = root;
}

/// The list of commands the shell shows on `help`.
pub const HELP_TEXT: &'static str = r#"
==========================
       DataSeal CLI
==========================

PASSWORDS:
    add-password <name> <value>            change-password <name> <value>
    encrypt-password <name>                decrypt-password <name>
    encrypt-all-passwords                  decrypt-all-passwords
    delete-password <name>                 restore-password <name>
    delete-all-passwords                   restore-all-passwords
    list-passwords [recycled]              list-encrypted-passwords
    search-passwords <query>

FILES:
    add-file <name> <path>                 cut-add-file <name> <path>
    encrypt-file <name>                    decrypt-file <name>
    encrypt-all-files                      decrypt-all-files
    delete-file <name>                     restore-file <name>
    delete-all-files                       restore-all-files
    paste-file <name> <dir>                cut-paste-file <name> <dir>
    list-files [active|recycled]           search-files <query>

FOLDERS:
    create-folder <name>...                delete-folder <name>
    delete-folder-force <name>             list-folders
    search-folders <query>

VAULT:
    empty-recycle-bin                      info
    create-nested-db <name>                login-nested-db <name>
    delete-nested-db <name>                list-nested-dbs
    change-root-password <old> <new>       help, exit
"#;

/// The help text of the shell.
pub fn help_document() -> (r: String)
    ensures
        r@ == HELP_TEXT@,
{
    String::from_str(HELP_TEXT)
}

/// The message for a command the shell does not know.
pub fn unknown_command_message(cmd: &str) -> (r: String)
    ensures
        r@ == "Unknown command: "@ + cmd@ + "\n\tTry 'help' for a list of available commands."@,
{
    let mut s = String::from_str("Unknown command: ");
    s.append(cmd);
    s.append("\n\tTry 'help' for a list of available commands.");
    s
}

} // verus!
