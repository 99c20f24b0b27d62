use vstd::prelude::*;
use crate::text::{chars_eq_str, chars_of, split_words, string_of, words};

verus! {

/// What a line typed into the app launcher asks for.
#[derive(PartialEq, Eq, Debug)]
pub enum LaunchRequest {
    /// `editor` without a file name.
    MissingFile,
    /// `editor <file>`: open the text editor on the file.
    Editor(String),
    /// `files [<dir>]`: open the file manager, on the directory if one is given.
    Files(Option<String>),
    /// Any other first word.
    Unrecognized,
}

/// The request a launcher line stands for, over its ASCII-whitespace words
/// (the first word names the app, the second is its argument).
pub open spec fn launch_spec(line: Seq<char>, r: LaunchRequest) -> bool {
    let w = words(line, true);
    if w[0] == "editor"@ {
        if w.len() < 2 {
            r == LaunchRequest::MissingFile
        } else {
            r matches LaunchRequest::Editor(f) && f@ == w[1]
        }
    } else if w[0] == "files"@ {
        if w.len() > 1 {
            r matches LaunchRequest::Files(Some(d)) && d@ == w[1]
        } else {
            r == LaunchRequest::Files(None)
        }
    } else {
        r == LaunchRequest::Unrecognized
    }
}

/// Reads a line typed into the app launcher. The line must hold a word.
pub fn launch_request(app: &str) -> (r: LaunchRequest)
    requires
        words(app@, true).len() >= 1,
    ensures
        launch_spec(app@, r),
{
    let chars = chars_of(app);
    let pieces = split_words(&chars, true);
    assert(pieces@[0]@ == words(app@, true)[0]);
    let appname = &pieces[0];
    if chars_eq_str(appname.as_slice(), "editor") {
        if pieces.len() < 2 {
            LaunchRequest::MissingFile
        } else {
            assert(pieces@[1]@ == words(app@, true)[1]);
            LaunchRequest::Editor(string_of(pieces[1].as_slice()))
        }
    } else if chars_eq_str(appname.as_slice(), "files") {
        if pieces.len() > 1 {
            assert(pieces@[1]@ == words(app@, true)[1]);
            LaunchRequest::Files(Some(string_of(pieces[1].as_slice())))
        } else {
            LaunchRequest::Files(None)
        }
    } else {
        LaunchRequest::Unrecognized
    }
}


/// What a launcher line asks for, by its words `w`: `editor <f>` opens the
/// editor on exactly the second word `f`; a lone `editor` asks for a file;
/// `files <d>` opens the file manager on exactly the second word `d`,
/// whatever it spells (relative or absolute); a lone `files` opens it on the
/// current directory; any other first word is unrecognized.
pub proof fn law_launch_request(line: Seq<char>, r: LaunchRequest)
    requires
        words(line, true).len() >= 1,
        launch_spec(line, r),
    ensures
        ({
            let w = words(line, true);
            &&& (w[0] == "editor"@ && w.len() >= 2) ==> (r matches LaunchRequest::Editor(f) && f@
                == w[1])
            &&& (w[0] == "editor"@ && w.len() == 1) ==> r == LaunchRequest::MissingFile
            &&& (w[0] == "files"@ && w.len() >= 2) ==> (r matches LaunchRequest::Files(Some(d))
                && d@ == w[1])
            &&& (w[0] == "files"@ && w.len() == 1) ==> r == LaunchRequest::Files(None)
            &&& (w[0] != "editor"@ && w[0] != "files"@) ==> r == LaunchRequest::Unrecognized
        }),
{
    reveal_strlit("editor");
    reveal_strlit("files");
    assert("editor"@ != "files"@) by {
        assert("editor"@[0] != "files"@[0]);
    }
}

} // verus!
