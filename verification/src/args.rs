//! The command line: `[-a|--all] [directory]`.

use vstd::prelude::*;
use vstd::slice::slice_subrange;
use crate::texts;

verus! {

/// Why a command line is refused.
#[derive(Clone, Copy, Debug, PartialEq, Eq, Structural)]
pub enum ArgumentError {
    /// A token begins with `-` and is neither `-a` nor `--all`.
    InvalidArgument,
    /// A second directory is given.
    TooManyArguments,
}

/// What one invocation lists, and how.
#[derive(Debug, PartialEq, Eq)]
pub struct Config {
    /// List hidden entries too.
    pub show_all: bool,
    /// The directory to list.
    pub path: String,
}

/// A configuration as plain values.
pub struct ConfigView {
    pub show_all: bool,
    pub path: Seq<char>,
}

impl View for Config {
    type V = ConfigView;

    open spec fn view(&self) -> ConfigView {
        ConfigView { show_all: self.show_all, path: self.path@ }
    }
}

/// The directory that is listed when the command line names none.
pub open spec fn default_path() -> Seq<char> {
    seq!['.']
}

/// The message of an error, as the command prints it.
pub open spec fn message_of(e: ArgumentError) -> Seq<char> {
    match e {
        ArgumentError::InvalidArgument => "Invalid argument"@,
        ArgumentError::TooManyArguments => "Too many arguments"@,
    }
}

/// The two spellings of the flag that asks for hidden entries.
pub open spec fn is_all_flag(token: Seq<char>) -> bool {
    token == seq!['-', 'a'] || token == seq!['-', '-', 'a', 'l', 'l']
}

/// A token that begins with the flag marker `-`.
pub open spec fn is_flag_like(token: Seq<char>) -> bool {
    token.len() > 0 && token[0] == '-'
}

/// A token that begins with `-` and is not a flag of this command.
pub open spec fn is_unknown_flag(token: Seq<char>) -> bool {
    is_flag_like(token) && !is_all_flag(token)
}

/// A token that names a directory: any token that does not begin with `-`,
/// the empty one included.
pub open spec fn is_positional(token: Seq<char>) -> bool {
    !is_flag_like(token)
}

/// Token `i` names a directory.
pub open spec fn positional_at(tokens: Seq<Seq<char>>, i: int) -> bool {
    0 <= i < tokens.len() && is_positional(tokens[i])
}

/// Token `i` names a directory and no earlier token does.
pub open spec fn first_positional_at(tokens: Seq<Seq<char>>, i: int) -> bool {
    positional_at(tokens, i) && forall|j: int| 0 <= j < i ==> !positional_at(tokens, j)
}

/// Token `i` is the flag that asks for hidden entries.
pub open spec fn all_flag_at(tokens: Seq<Seq<char>>, i: int) -> bool {
    0 <= i < tokens.len() && is_all_flag(tokens[i])
}

/// Token `i` cannot stand where it does: it is an unknown flag, or it names
/// a directory after an earlier token did.
pub open spec fn offends_at(tokens: Seq<Seq<char>>, i: int) -> bool {
    0 <= i < tokens.len() && (is_unknown_flag(tokens[i]) || (is_positional(tokens[i]) && exists|
        j: int,
    |
        0 <= j < i && positional_at(tokens, j)))
}

/// Token `i` offends and no earlier token does.
pub open spec fn first_offence_at(tokens: Seq<Seq<char>>, i: int) -> bool {
    offends_at(tokens, i) && forall|j: int| 0 <= j < i ==> !offends_at(tokens, j)
}

/// The error that an offending token gives.
pub open spec fn offence(token: Seq<char>) -> ArgumentError {
    if is_unknown_flag(token) {
        ArgumentError::InvalidArgument
    } else {
        ArgumentError::TooManyArguments
    }
}

/// A command line is accepted when none of its tokens offends.
pub open spec fn accepted(tokens: Seq<Seq<char>>) -> bool {
    forall|i: int| !offends_at(tokens, i)
}

/// Whether some token asks for hidden entries.
pub open spec fn wants_all(tokens: Seq<Seq<char>>) -> bool {
    exists|i: int| all_flag_at(tokens, i)
}

/// The directory that the tokens name: the first token that names one, or
/// `.` where none does.
pub open spec fn target(tokens: Seq<Seq<char>>) -> Seq<char> {
    if exists|i: int| first_positional_at(tokens, i) {
        tokens[choose|i: int| first_positional_at(tokens, i)]
    } else {
        default_path()
    }
}

/// What parsing the tokens of a command line, program name excluded, gives:
/// the error of the first offending token, or, where none offends, the
/// configuration that the tokens ask for.
pub open spec fn parsed(tokens: Seq<Seq<char>>) -> Result<ConfigView, ArgumentError> {
    if accepted(tokens) {
        Ok(ConfigView { show_all: wants_all(tokens), path: target(tokens) })
    } else {
        Err(offence(tokens[choose|i: int| first_offence_at(tokens, i)]))
    }
}

/// A parse result with its error as the message that the command prints.
pub open spec fn reported(outcome: Result<ConfigView, ArgumentError>) -> Result<
    ConfigView,
    Seq<char>,
> {
    match outcome {
        Ok(config) => Ok(config),
        Err(e) => Err(message_of(e)),
    }
}

/// No token is empty.
pub open spec fn no_empty_token(tokens: Seq<Seq<char>>) -> bool {
    forall|i: int| 0 <= i < tokens.len() ==> (#[trigger] tokens[i]).len() > 0
}

/// The tokens of a full argument list, whose first item is the program's
/// name.
pub open spec fn tokens_after_program(args: Seq<Seq<char>>) -> Seq<Seq<char>> {
    if args.len() == 0 {
        args
    } else {
        args.subrange(1, args.len() as int)
    }
}

impl ArgumentError {
    /// The text that describes this error.
    pub fn message(&self) -> (text: &'static str)
        ensures
            text@ == message_of(*self),
    {
        match self {
            ArgumentError::InvalidArgument => "Invalid argument",
            ArgumentError::TooManyArguments => "Too many arguments",
        }
    }
}

/// Tells whether `token` is `-a` or `--all`.
pub fn all_flag(token: &str) -> (r: bool)
    ensures
        r == is_all_flag(token@),
{
    let ghost short = seq!['-', 'a'];
    let ghost long = seq!['-', '-', 'a', 'l', 'l'];
    let n: usize = token.unicode_len();
    if n == 2 {
        let r = token.get_char(0) == '-' && token.get_char(1) == 'a';
        proof {
            assert(short.len() == 2 && short[0] == '-' && short[1] == 'a');
            assert(long.len() == 5);
            if r {
                assert(token@ =~= short);
            }
        }
        r
    } else if n == 5 {
        let r = token.get_char(0) == '-' && token.get_char(1) == '-' && token.get_char(2) == 'a'
            && token.get_char(3) == 'l' && token.get_char(4) == 'l';
        proof {
            assert(short.len() == 2);
            assert(long.len() == 5 && long[0] == '-' && long[1] == '-' && long[2] == 'a' && long[3]
                == 'l' && long[4] == 'l');
            if r {
                assert(token@ =~= long);
            }
        }
        r
    } else {
        proof {
            assert(short.len() == 2);
            assert(long.len() == 5);
        }
        false
    }
}

/// Tells whether `token` begins with `-`.
pub fn flag_like(token: &str) -> (r: bool)
    ensures
        r == is_flag_like(token@),
{
    !token.is_empty() && token.get_char(0) == '-'
}

impl Config {
    /// A configuration is well formed when its path is not empty.
    pub open spec fn wf(&self) -> bool {
        self.path@.len() > 0
    }

    /// Reads a full argument list, whose first item is the program's name
    /// and is passed over; an empty list is read as one without tokens. The
    /// rest is parsed as `parse` does, and an error comes as its message.
    pub fn new(args: Vec<String>) -> (r: Result<Config, &'static str>)
        ensures
            match r {
                Ok(config) => reported(parsed(tokens_after_program(texts(args@)))) == Ok::<
                    ConfigView,
                    Seq<char>,
                >(config@),
                Err(text) => reported(parsed(tokens_after_program(texts(args@)))) == Err::<
                    ConfigView,
                    Seq<char>,
                >(text@),
            },
            r matches Ok(config) ==> (config.wf() <==> no_empty_token(
                tokens_after_program(texts(args@)),
            )),
    {
        let start: usize = if args.len() == 0 {
            0
        } else {
            1
        };
        let tokens = slice_subrange(args.as_slice(), start, args.len());
        assert(texts(tokens@) =~= tokens_after_program(texts(args@)));
        match Config::parse(tokens) {
            Ok(config) => Ok(config),
            Err(e) => Err(e.message()),
        }
    }

    /// Reads the tokens of a command line, program name excluded, from left
    /// to right: `-a` and `--all` ask for hidden entries, any other token
    /// that begins with `-` is refused, and of the remaining tokens only one
    /// may stand, which names the directory.
    pub fn parse(tokens: &[String]) -> (r: Result<Config, ArgumentError>)
        ensures
            match r {
                Ok(config) => parsed(texts(tokens@)) == Ok::<ConfigView, ArgumentError>(config@),
                Err(e) => parsed(texts(tokens@)) == Err::<ConfigView, ArgumentError>(e),
            },
            r matches Ok(config) ==> (config.wf() <==> no_empty_token(texts(tokens@))),
    {
        let ghost toks = texts(tokens@);
        let mut show_all: bool = false;
        let mut path: String = ".".to_owned();
        let mut have_path: bool = false;
        let ghost mut at: int = 0;
        let ghost mut flag: int = 0;
        proof {
            reveal_strlit(".");
            assert(path@ =~= default_path());
        }
        let mut i: usize = 0;
        while i < tokens.len()
            invariant
                0 <= i <= tokens.len(),
                toks == texts(tokens@),
                forall|j: int| 0 <= j < i ==> !offends_at(toks, j),
                show_all ==> 0 <= flag < i && all_flag_at(toks, flag),
                !show_all ==> forall|j: int| 0 <= j < i ==> !all_flag_at(toks, j),
                have_path ==> 0 <= at < i && first_positional_at(toks, at) && path@ == toks[at],
                !have_path ==> path@ == default_path() && forall|j: int|
                    0 <= j < i ==> !positional_at(toks, j),
            decreases tokens.len() - i,
        {
            let token: &str = tokens[i].as_str();
            assert(token@ == toks[i as int]);
            if all_flag(token) {
                show_all = true;
                proof {
                    flag = i as int;
                }
            } else if flag_like(token) {
                proof {
                    assert(first_offence_at(toks, i as int));
                    lemma_first_offence_decides(toks, i as int);
                }
                return Err(ArgumentError::InvalidArgument);
            } else if have_path {
                proof {
                    assert(positional_at(toks, at));
                    assert(first_offence_at(toks, i as int));
                    lemma_first_offence_decides(toks, i as int);
                }
                return Err(ArgumentError::TooManyArguments);
            } else {
                path = tokens[i].clone();
                have_path = true;
                proof {
                    at = i as int;
                }
            }
            i += 1;
        }
        proof {
            assert(accepted(toks));
            assert(show_all == wants_all(toks));
            if have_path {
                lemma_first_positional_is_target(toks, at);
            } else {
                assert(!exists|k: int| first_positional_at(toks, k));
            }
            lemma_accepted_path(toks);
        }
        Ok(Config { show_all, path })
    }
}

/// No token is an unknown flag.
pub open spec fn no_unknown_flag(tokens: Seq<Seq<char>>) -> bool {
    forall|i: int| 0 <= i < tokens.len() ==> !is_unknown_flag(#[trigger] tokens[i])
}

/// At most one token names a directory.
pub open spec fn at_most_one_directory(tokens: Seq<Seq<char>>) -> bool {
    forall|i: int, j: int| #[trigger]
        positional_at(tokens, i) && #[trigger] positional_at(tokens, j) ==> i == j
}

/// A command line is accepted exactly when it holds no unknown flag and at
/// most one token that names a directory.
pub proof fn lemma_accepted_iff(tokens: Seq<Seq<char>>)
    ensures
        parsed(tokens) is Ok <==> accepted(tokens),
        accepted(tokens) <==> no_unknown_flag(tokens) && at_most_one_directory(tokens),
{
    if accepted(tokens) {
        assert forall|i: int| 0 <= i < tokens.len() implies !is_unknown_flag(
            #[trigger] tokens[i],
        ) by {
            assert(!offends_at(tokens, i));
        }
        assert forall|i: int, j: int| #[trigger]
            positional_at(tokens, i) && #[trigger] positional_at(tokens, j) implies i == j by {
            if i < j {
                assert(!offends_at(tokens, j));
            } else if j < i {
                assert(!offends_at(tokens, i));
            }
        }
    }
    if no_unknown_flag(tokens) && at_most_one_directory(tokens) {
        assert forall|i: int| !offends_at(tokens, i) by {
            if offends_at(tokens, i) {
                let j = choose|j: int| 0 <= j < i && positional_at(tokens, j);
                assert(positional_at(tokens, i) && positional_at(tokens, j));
            }
        }
    }
}

/// A command line that holds an unknown flag is refused, whatever else it
/// holds.
pub proof fn lemma_unknown_flag_refused(tokens: Seq<Seq<char>>, i: int)
    requires
        0 <= i < tokens.len(),
        is_unknown_flag(tokens[i]),
    ensures
        parsed(tokens) is Err,
{
    assert(offends_at(tokens, i));
}

/// A command line that names two directories is refused, whatever else it
/// holds.
pub proof fn lemma_second_directory_refused(tokens: Seq<Seq<char>>, i: int, j: int)
    requires
        0 <= i < j < tokens.len(),
        is_positional(tokens[i]),
        is_positional(tokens[j]),
    ensures
        parsed(tokens) is Err,
{
    assert(positional_at(tokens, i));
    assert(offends_at(tokens, j));
}

/// The path of an accepted command line is empty exactly when one of its
/// tokens is: an empty token begins with no `-`, so it names the directory.
pub proof fn lemma_accepted_path(tokens: Seq<Seq<char>>)
    requires
        accepted(tokens),
    ensures
        target(tokens).len() > 0 <==> no_empty_token(tokens),
{
    if exists|i: int| first_positional_at(tokens, i) {
        let i = choose|i: int| first_positional_at(tokens, i);
        assert(positional_at(tokens, i));
        if tokens[i].len() > 0 {
            assert forall|k: int| 0 <= k < tokens.len() implies (#[trigger] tokens[k]).len()
                > 0 by {
                if k > i {
                    assert(!offends_at(tokens, k));
                } else if k < i {
                    assert(!positional_at(tokens, k));
                }
            }
        }
    } else {
        assert forall|k: int| 0 <= k < tokens.len() implies (#[trigger] tokens[k]).len() > 0 by {
            if positional_at(tokens, k) {
                lemma_some_first_positional(tokens, k);
            }
        }
    }
}

/// Where a token names a directory, some token is the first to do so.
proof fn lemma_some_first_positional(tokens: Seq<Seq<char>>, k: int)
    requires
        positional_at(tokens, k),
    ensures
        exists|i: int| first_positional_at(tokens, i),
    decreases k,
{
    if exists|j: int| 0 <= j < k && positional_at(tokens, j) {
        let j = choose|j: int| 0 <= j < k && positional_at(tokens, j);
        lemma_some_first_positional(tokens, j);
    } else {
        assert(first_positional_at(tokens, k));
    }
}

/// The first offending token decides the error.
pub proof fn lemma_first_offence_decides(tokens: Seq<Seq<char>>, i: int)
    requires
        first_offence_at(tokens, i),
    ensures
        parsed(tokens) == Err::<ConfigView, ArgumentError>(offence(tokens[i])),
{
    assert(offends_at(tokens, i));
    let k = choose|k: int| first_offence_at(tokens, k);
    assert(first_offence_at(tokens, k));
    assert(k == i) by {
        if k < i {
            assert(!offends_at(tokens, k));
        } else if i < k {
            assert(!offends_at(tokens, i));
        }
    }
}

/// The first token that names a directory is the target.
pub proof fn lemma_first_positional_is_target(tokens: Seq<Seq<char>>, i: int)
    requires
        first_positional_at(tokens, i),
    ensures
        target(tokens) == tokens[i],
{
    let k = choose|k: int| first_positional_at(tokens, k);
    assert(first_positional_at(tokens, k));
    assert(k == i) by {
        if k < i {
            assert(!positional_at(tokens, k));
        } else if i < k {
            assert(!positional_at(tokens, i));
        }
    }
}

} // verus!
