//! Start-up configuration: the window size and the card files to load.

use vstd::prelude::*;

verus! {

/// Width of the window in pixels.
pub const WINDOW_WIDTH: i32 = 1000;

/// Height of the window in pixels.
pub const WINDOW_HEIGHT: i32 = 400;

/// Vertical position of the first line of a question.
pub const QUESTION_TOP: i32 = 40;

/// Vertical position of the first line of an answer.
pub const ANSWER_TOP: i32 = 80;

/// Font size of questions and answers.
pub const FONT_SIZE: i32 = 20;

/// What the width for wrapping text falls short of the window's width.
pub const TEXT_MARGIN: i32 = 80;

/// The message given when no card file is named.
pub open spec fn missing_file_message() -> Seq<char> {
    "need atleast one csv file"@
}

/// What the program was started with.
pub struct Config {
    pub width: i32,
    pub height: i32,
    pub file_paths: Vec<String>,
}

impl Config {
    /// The card files named by an argument list: every argument but the
    /// first, which is the program's own name.
    pub open spec fn paths_of(args: Seq<String>) -> Seq<Seq<char>> {
        Seq::new((args.len() - 1) as nat, |i: int| args[i + 1]@)
    }

    /// Reads the configuration off the argument list. An argument list that
    /// names no file is refused.
    pub fn build(args: &[String]) -> (result: Result<Config, &'static str>)
        ensures
            result is Err <==> args@.len() < 2,
            result matches Err(message) ==> message@ == missing_file_message(),
            result matches Ok(config) ==> {
                &&& config.width == WINDOW_WIDTH
                &&& config.height == WINDOW_HEIGHT
                &&& config.file_paths.len() == args@.len() - 1
                &&& config.file_paths.deep_view() == Self::paths_of(args@)
            },
    {
        if args.len() < 2 {
            return Err("need atleast one csv file");
        }
        let mut file_paths: Vec<String> = Vec::new();
        let mut i: usize = 1;
        while i < args.len()
            invariant
                1 <= i <= args.len(),
                file_paths.len() == i - 1,
                forall|k: int| 0 <= k < i - 1 ==> (#[trigger] file_paths[k])@ == args[k + 1]@,
            decreases args.len() - i,
        {
            file_paths.push(args[i].clone());
            i += 1;
        }
        assert(file_paths.deep_view() =~= Self::paths_of(args@));
        Ok(Config { width: WINDOW_WIDTH, height: WINDOW_HEIGHT, file_paths })
    }
}

} // verus!
