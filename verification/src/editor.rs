//! Editor launch decisions: the ordered list of editors to probe for, and
//! the invocation that opens a file, optionally at a line, in whichever
//! editor the probe found.

use vstd::prelude::*;

use crate::text::{dec_u32, spec_dec, str_eq};

verus! {

/// One editor to try: the identifier the launch logic branches on, and
/// the program with the arguments whose success marks the editor as
/// available.
pub struct EditorCandidate {
    pub editor_id: String,
    pub probe_program: String,
    pub probe_args: Vec<String>,
}

/// Mathematical image of one candidate.
pub struct CandidateModel {
    pub editor_id: Seq<char>,
    pub probe_program: Seq<char>,
    pub probe_args: Seq<Seq<char>>,
}

impl View for EditorCandidate {
    type V = CandidateModel;

    open spec fn view(&self) -> CandidateModel {
        CandidateModel {
            editor_id: self.editor_id@,
            probe_program: self.probe_program@,
            probe_args: self.probe_args.deep_view(),
        }
    }
}

impl DeepView for EditorCandidate {
    type V = CandidateModel;

    open spec fn deep_view(&self) -> CandidateModel {
        self.view()
    }
}

pub open spec fn candidate_model(
    editor_id: Seq<char>,
    probe_program: Seq<char>,
    probe_args: Seq<Seq<char>>,
) -> CandidateModel {
    CandidateModel { editor_id, probe_program, probe_args }
}

/// The ordered editor probe plan: the code editor's variants first (with
/// the shell-mediated form on the windows side), then the two other
/// common editors, and on the windows side the two notepad fallbacks
/// last. The first candidate whose probe succeeds is used.
pub open spec fn spec_editor_plan(windows: bool) -> Seq<CandidateModel> {
    if windows {
        seq![
            candidate_model("code.cmd"@, "code.cmd"@, seq!["--version"@]),
            candidate_model("code.exe"@, "code.exe"@, seq!["--version"@]),
            candidate_model("code"@, "code"@, seq!["--version"@]),
            candidate_model("cmd-code"@, "cmd"@, seq!["/c"@, "code"@, "--version"@]),
            candidate_model("subl"@, "subl"@, seq!["--version"@]),
            candidate_model("atom"@, "atom"@, seq!["--version"@]),
            candidate_model("notepad++"@, "notepad++"@, seq!["--version"@]),
            candidate_model("notepad"@, "notepad"@, seq!["/?"@]),
        ]
    } else {
        seq![
            candidate_model("code"@, "code"@, seq!["--version"@]),
            candidate_model("subl"@, "subl"@, seq!["--version"@]),
            candidate_model("atom"@, "atom"@, seq!["--version"@]),
        ]
    }
}

fn simple_candidate(word: &str) -> (r: EditorCandidate)
    ensures
        r@ == candidate_model(word@, word@, seq!["--version"@]),
{
    let r = EditorCandidate {
        editor_id: word.to_owned(),
        probe_program: word.to_owned(),
        probe_args: vec![String::from_str("--version")],
    };
    proof {
        assert(r@.probe_args =~= seq!["--version"@]);
    }
    r
}

/// Build the ordered editor probe plan.
pub fn editor_probe_plan(windows: bool) -> (r: Vec<EditorCandidate>)
    ensures
        r.deep_view() == spec_editor_plan(windows),
{
    let mut r: Vec<EditorCandidate> = Vec::new();
    if windows {
        r.push(simple_candidate("code.cmd"));
        r.push(simple_candidate("code.exe"));
        r.push(simple_candidate("code"));
        let shell = EditorCandidate {
            editor_id: String::from_str("cmd-code"),
            probe_program: String::from_str("cmd"),
            probe_args: vec![
                String::from_str("/c"),
                String::from_str("code"),
                String::from_str("--version"),
            ],
        };
        proof {
            assert(shell@.probe_args =~= seq!["/c"@, "code"@, "--version"@]);
        }
        r.push(shell);
        r.push(simple_candidate("subl"));
        r.push(simple_candidate("atom"));
        r.push(simple_candidate("notepad++"));
        let plain = EditorCandidate {
            editor_id: String::from_str("notepad"),
            probe_program: String::from_str("notepad"),
            probe_args: vec![String::from_str("/?")],
        };
        proof {
            assert(plain@.probe_args =~= seq!["/?"@]);
        }
        r.push(plain);
    } else {
        r.push(simple_candidate("code"));
        r.push(simple_candidate("subl"));
        r.push(simple_candidate("atom"));
    }
    proof {
        assert(r.deep_view() =~= spec_editor_plan(windows));
    }
    r
}

/// The message when no candidate's probe succeeds.
pub fn no_editor_message() -> (r: String)
    ensures
        r@
            == "No supported editor found. Please install VS Code, Sublime Text, or another supported editor."@,
{
    String::from_str(
        "No supported editor found. Please install VS Code, Sublime Text, or another supported editor.",
    )
}

/// The path argument for an editor that takes the line joined to the path
/// by a colon.
pub open spec fn spec_path_with_line(path: Seq<char>, line: int) -> Seq<char> {
    path + ":"@ + spec_dec(line)
}

/// The program and arguments that open `path` in the found editor. The
/// shell-mediated form runs the code editor through the shell; the code
/// editor's variants reuse the window and take a goto argument for a
/// line; the two other editors take the line joined to the path; the
/// notepad fallback takes a line-number flag; anything else is handed the
/// path alone.
pub open spec fn spec_editor_invocation(
    editor: Seq<char>,
    path: Seq<char>,
    line: Option<int>,
) -> (Seq<char>, Seq<Seq<char>>) {
    if editor == "cmd-code"@ || editor == "code"@ || editor == "code.cmd"@ || editor
        == "code.exe"@ {
        let lead: Seq<Seq<char>> = if editor == "cmd-code"@ {
            seq!["/c"@, "code"@, "-r"@]
        } else {
            seq!["-r"@]
        };
        let program = if editor == "cmd-code"@ {
            "cmd"@
        } else {
            editor
        };
        match line {
            Some(l) => (program, lead + seq!["-g"@, spec_path_with_line(path, l)]),
            None => (program, lead + seq![path]),
        }
    } else if editor == "subl"@ || editor == "atom"@ {
        match line {
            Some(l) => (editor, seq![spec_path_with_line(path, l)]),
            None => (editor, seq![path]),
        }
    } else if editor == "notepad++"@ {
        match line {
            Some(l) => (editor, seq!["-n"@, spec_dec(l), path]),
            None => (editor, seq![path]),
        }
    } else {
        (editor, seq![path])
    }
}

/// Build the path argument that carries a line number.
pub fn path_with_line(path: &str, line: u32) -> (r: String)
    ensures
        r@ == spec_path_with_line(path@, line as int),
{
    let d = dec_u32(line);
    let r = path.to_owned().concat(":").concat(d.as_str());
    proof {
        assert(r@ =~= spec_path_with_line(path@, line as int));
    }
    r
}

/// Build the program and arguments that open `path`, optionally at a
/// line, in the found editor.
pub fn build_editor_invocation(editor: &str, path: &str, line: Option<u32>) -> (r: (
    String,
    Vec<String>,
))
    ensures
        (r.0@, r.1.deep_view()) == spec_editor_invocation(editor@, path@, match line {
            Some(l) => Some(l as int),
            None => None,
        }),
{
    let ghost sline: Option<int> = match line {
        Some(l) => Some(l as int),
        None => None,
    };
    let is_code_like = str_eq(editor, "cmd-code") || str_eq(editor, "code") || str_eq(
        editor,
        "code.cmd",
    ) || str_eq(editor, "code.exe");
    if is_code_like {
        let mut args: Vec<String> = Vec::new();
        let program = if str_eq(editor, "cmd-code") {
            args.push(String::from_str("/c"));
            args.push(String::from_str("code"));
            args.push(String::from_str("-r"));
            String::from_str("cmd")
        } else {
            args.push(String::from_str("-r"));
            editor.to_owned()
        };
        match line {
            Some(l) => {
                args.push(String::from_str("-g"));
                args.push(path_with_line(path, l));
            },
            None => {
                args.push(path.to_owned());
            },
        }
        proof {
            assert(args.deep_view() =~= spec_editor_invocation(editor@, path@, sline).1);
        }
        (program, args)
    } else if str_eq(editor, "subl") || str_eq(editor, "atom") {
        let arg = match line {
            Some(l) => path_with_line(path, l),
            None => path.to_owned(),
        };
        let args = vec![arg];
        proof {
            assert(args.deep_view() =~= spec_editor_invocation(editor@, path@, sline).1);
        }
        (editor.to_owned(), args)
    } else if str_eq(editor, "notepad++") {
        match line {
            Some(l) => {
                let args = vec![String::from_str("-n"), dec_u32(l), path.to_owned()];
                proof {
                    assert(args.deep_view() =~= spec_editor_invocation(editor@, path@, sline).1);
                }
                (editor.to_owned(), args)
            },
            None => {
                let args = vec![path.to_owned()];
                proof {
                    assert(args.deep_view() =~= spec_editor_invocation(editor@, path@, sline).1);
                }
                (editor.to_owned(), args)
            },
        }
    } else {
        let args = vec![path.to_owned()];
        proof {
            assert(args.deep_view() =~= spec_editor_invocation(editor@, path@, sline).1);
        }
        (editor.to_owned(), args)
    }
}

/// The absolute path handed to the editor: the file path itself when it
/// is already absolute, else the working directory and the file path
/// joined by a slash.
pub fn editor_target_path(file_path: &str, working_directory: &str, already_absolute: bool) -> (r:
    String)
    ensures
        already_absolute ==> r@ == file_path@,
        !already_absolute ==> r@ == working_directory@ + "/"@ + file_path@,
{
    if already_absolute {
        file_path.to_owned()
    } else {
        let r = working_directory.to_owned().concat("/").concat(file_path);
        proof {
            assert(r@ =~= working_directory@ + "/"@ + file_path@);
        }
        r
    }
}

} // verus!
