//! What an input line asks the interpreter to do.

use vstd::prelude::*;
use crate::text::{
    bar_count, first_space, law_first_word, law_stage_count, lemma_trim, split_bars, split_stages,
    split_words, trim, trim_line, words,
};

verus! {

/// What a line asks for, over plain sequences of characters.
pub enum Request {
    Nothing,
    ChangeDir(Seq<char>),
    Exit,
    Run { program: Seq<char>, args: Seq<Seq<char>> },
    Pipeline(Seq<Seq<Seq<char>>>),
}

/// What a line asks the interpreter to do.
#[derive(Debug, PartialEq, Eq)]
pub enum Command {
    /// A blank line, or one without any word.
    Nothing,
    /// The built-in `cd`, with the directory token (`~` when none was given).
    ChangeDir(String),
    /// The built-in `exit`.
    Exit,
    /// One external command with its arguments.
    Run { program: String, args: Vec<String> },
    /// Two or more stages, each given as its words; a blank stage has none.
    Pipeline(Vec<Vec<String>>),
}

impl View for Command {
    type V = Request;

    open spec fn view(&self) -> Request {
        match self {
            Command::Nothing => Request::Nothing,
            Command::ChangeDir(p) => Request::ChangeDir(p@),
            Command::Exit => Request::Exit,
            Command::Run { program, args } => Request::Run {
                program: program@,
                args: args.deep_view(),
            },
            Command::Pipeline(stages) => Request::Pipeline(stages.deep_view()),
        }
    }
}

pub open spec fn cd_word() -> Seq<char> {
    seq!['c', 'd']
}

pub open spec fn exit_word() -> Seq<char> {
    seq!['e', 'x', 'i', 't']
}

/// The directory that `cd` without an argument goes to.
pub open spec fn home_word() -> Seq<char> {
    seq!['~']
}

/// The words of each stage of a line with bars, in order.
pub open spec fn stage_words(t: Seq<char>) -> Seq<Seq<Seq<char>>> {
    split_bars(t).map_values(|p: Seq<char>| words(trim(p)))
}

/// What a line without bars asks for, given its words.
pub open spec fn simple_request(w: Seq<Seq<char>>) -> Request {
    if w.len() == 0 {
        Request::Nothing
    } else if w[0] == cd_word() {
        Request::ChangeDir(if w.len() > 1 { w[1] } else { home_word() })
    } else if w[0] == exit_word() {
        Request::Exit
    } else {
        Request::Run { program: w[0], args: w.skip(1) }
    }
}

/// What the input line `line` asks for.
pub open spec fn request_of(line: Seq<char>) -> Request {
    let t = trim(line);
    if t.len() == 0 {
        Request::Nothing
    } else if split_bars(t).len() > 1 {
        Request::Pipeline(stage_words(t))
    } else {
        simple_request(words(t))
    }
}

/// A non-blank line without bars is one command, named by the trimmed line
/// up to its first whitespace.
pub proof fn law_line_without_bars(line: Seq<char>)
    requires
        bar_count(line) == 0,
        trim(line).len() > 0,
    ensures
        request_of(line) == simple_request(words(trim(line))),
        words(trim(line)).len() > 0,
        words(trim(line))[0] == trim(line).take(first_space(trim(line)) as int),
{
    law_stage_count(line);
    law_first_word(line);
}

/// A line with `k > 0` bars is a pipeline of `k + 1` stages, the words of the
/// trimmed pieces between the bars, in order.
pub proof fn law_line_with_bars(line: Seq<char>)
    requires
        bar_count(line) > 0,
    ensures
        request_of(line) == Request::Pipeline(stage_words(trim(line))),
        stage_words(trim(line)).len() == bar_count(line) + 1,
        forall|i: int|
            0 <= i < stage_words(trim(line)).len() ==> #[trigger] stage_words(trim(line))[i]
                == words(trim(split_bars(trim(line))[i])),
{
    law_stage_count(line);
    lemma_trim(line);
    if trim(line).len() == 0 {
        assert(bar_count(trim(line)) == 0);
    }
}

/// `cd` alone asks for the same as `cd ~`.
pub proof fn law_cd_alone_goes_home(alone: Seq<char>, tilde: Seq<char>)
    requires
        bar_count(alone) == 0,
        bar_count(tilde) == 0,
        words(trim(alone)) == seq![cd_word()],
        words(trim(tilde)) == seq![cd_word(), home_word()],
    ensures
        request_of(alone) == request_of(tilde),
        request_of(alone) == Request::ChangeDir(home_word()),
{
    law_stage_count(alone);
    law_stage_count(tilde);
    if trim(alone).len() == 0 {
        assert(words(trim(alone)) =~= Seq::<Seq<char>>::empty());
    }
    if trim(tilde).len() == 0 {
        assert(words(trim(tilde)) =~= Seq::<Seq<char>>::empty());
    }
}

/// Reads an input line as a request: blank lines ask for nothing, a line
/// with bars is a pipeline, otherwise the first word picks `cd`, `exit` or
/// an external command.
pub fn parse_line(line: &str) -> (r: Command)
    ensures
        r@ == request_of(line@),
{
    let t = trim_line(line);
    if t.unicode_len() == 0 {
        return Command::Nothing;
    }
    let parts = split_stages(t.as_str());
    if parts.len() > 1 {
        let mut stages: Vec<Vec<String>> = Vec::new();
        let mut i: usize = 0;
        while i < parts.len()
            invariant
                i <= parts.len(),
                parts.len() == split_bars(t@).len(),
                forall|k: int| 0 <= k < parts.len() ==> #[trigger] parts[k]@ == trim(split_bars(t@)[k]),
                stages.len() == i,
                forall|k: int| 0 <= k < i ==> (#[trigger] stages[k]).deep_view()
                    == words(trim(split_bars(t@)[k])),
            decreases parts.len() - i,
        {
            let w = split_words(parts[i].as_str());
            assert(w.deep_view() =~= words(parts[i as int]@));
            stages.push(w);
            i = i + 1;
        }
        assert(stages.deep_view() =~= stage_words(t@));
        return Command::Pipeline(stages);
    }
    let mut w = split_words(t.as_str());
    if w.len() == 0 {
        return Command::Nothing;
    }
    proof {
        reveal_strlit("cd");
        reveal_strlit("exit");
        reveal_strlit("~");
    }
    let cd = String::from_str("cd");
    let exit = String::from_str("exit");
    assert(cd@ =~= cd_word());
    assert(exit@ =~= exit_word());
    if w[0] == cd {
        if w.len() > 1 {
            Command::ChangeDir(w[1].clone())
        } else {
            let home = String::from_str("~");
            assert(home@ =~= home_word());
            Command::ChangeDir(home)
        }
    } else if w[0] == exit {
        Command::Exit
    } else {
        let program = w.remove(0);
        assert(w.deep_view() =~= words(t@).skip(1));
        Command::Run { program, args: w }
    }
}

} // verus!
