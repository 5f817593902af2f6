//! The argument model of a command: an argv or a single command line (the
//! last one set wins), and how it becomes the program to load and the
//! arguments to pass. Arguments are raw bytes, as POSIX passes them.

use vstd::prelude::*;
use vstd::string::StringExecFns;

use crate::error::QuoteError;
use crate::quote::posix::{spec_join, spec_split, split};

verus! {

/// The argument source of truth. `Argv` and `CommandLine` are mutually
/// exclusive — the last one set wins.
#[derive(Debug)]
pub enum CommandInput {
    /// Nothing set yet.
    Empty,
    /// An explicit argv (argv[0] first).
    Argv(Vec<Vec<u8>>),
    /// One command line, split into words by the POSIX shell rules.
    CommandLine(Vec<u8>),
}

/// The mathematical value of a [`CommandInput`].
pub enum InputModel {
    Empty,
    Argv(Seq<Seq<u8>>),
    CommandLine(Seq<u8>),
}

impl View for CommandInput {
    type V = InputModel;

    open spec fn view(&self) -> InputModel {
        match self {
            CommandInput::Empty => InputModel::Empty,
            CommandInput::Argv(v) => InputModel::Argv(v.deep_view()),
            CommandInput::CommandLine(l) => InputModel::CommandLine(l@),
        }
    }
}

/// Why a command's arguments give no program to run.
#[derive(Debug, Clone, Copy, PartialEq, Eq, Structural)]
pub enum ArgvError {
    /// Neither an argv nor a command line was set.
    NoProgram,
    /// An empty argv and no executable.
    EmptyArgv,
    /// A command line with no words.
    EmptyCommandLine,
    /// A command line that does not split.
    Quote(QuoteError),
}

impl ArgvError {
    /// The description of this error.
    pub open spec fn text(self) -> Seq<char> {
        match self {
            ArgvError::NoProgram => "no program specified"@,
            ArgvError::EmptyArgv => "empty argv"@,
            ArgvError::EmptyCommandLine => "empty command line"@,
            ArgvError::Quote(q) => q.text(),
        }
    }

    /// The description of this error.
    pub fn message(&self) -> (r: String)
        ensures
            r@ == self.text(),
    {
        match self {
            ArgvError::NoProgram => String::from_str("no program specified"),
            ArgvError::EmptyArgv => String::from_str("empty argv"),
            ArgvError::EmptyCommandLine => String::from_str("empty command line"),
            ArgvError::Quote(q) => q.message(),
        }
    }
}

/// What the operating system is asked to run: the file to load, the argv[0]
/// the child sees when it differs from that file, and the arguments after it.
pub struct Launch {
    pub program: Vec<u8>,
    pub arg0: Option<Vec<u8>>,
    pub args: Vec<Vec<u8>>,
}

/// The launch that an input and an optional executable override call for:
/// - nothing set ⇒ `NoProgram`;
/// - an argv: `EmptyArgv` if it and the executable are both missing; else
///   the executable (when set, with argv[0] kept as what the child sees) or
///   argv[0] is loaded, with the rest of argv as arguments;
/// - a command line: split by the POSIX rules (its error when it does not
///   split), `EmptyCommandLine` if it has no words; else the executable or the
///   first word is loaded, with the other words as arguments.
pub open spec fn spec_launch(input: InputModel, exe: Option<Seq<u8>>) -> Result<
    (Seq<u8>, Option<Seq<u8>>, Seq<Seq<u8>>),
    ArgvError,
> {
    match input {
        InputModel::Empty => Err(ArgvError::NoProgram),
        InputModel::Argv(v) => if v.len() == 0 {
            match exe {
                None => Err(ArgvError::EmptyArgv),
                Some(e) => Ok((e, None, seq![])),
            }
        } else {
            match exe {
                None => Ok((v[0], None, v.skip(1))),
                Some(e) => Ok((e, Some(v[0]), v.skip(1))),
            }
        },
        InputModel::CommandLine(line) => match spec_split(line) {
            Err(q) => Err(ArgvError::Quote(q)),
            Ok(words) => if words.len() == 0 {
                Err(ArgvError::EmptyCommandLine)
            } else {
                match exe {
                    None => Ok((words[0], None, words.skip(1))),
                    Some(e) => Ok((e, None, words.skip(1))),
                }
            },
        },
    }
}

impl Launch {
    pub open spec fn model(&self) -> (Seq<u8>, Option<Seq<u8>>, Seq<Seq<u8>>) {
        (
            self.program@,
            match self.arg0 {
                Some(a) => Some(a@),
                None => None,
            },
            self.args.deep_view(),
        )
    }
}

/// The bytes of an optional slice.
pub open spec fn bytes_of(exe: Option<&[u8]>) -> Option<Seq<u8>> {
    match exe {
        Some(e) => Some(e@),
        None => None,
    }
}

/// A copy of a byte string.
fn copy_bytes(b: &Vec<u8>) -> (r: Vec<u8>)
    ensures
        r@ == b@,
        r.deep_view() == b@,
{
    let r = vstd::slice::slice_to_vec(b.as_slice());
    assert(r.deep_view() =~= r@);
    r
}

/// Push a copy of `w` onto `out`.
fn push_copy(out: &mut Vec<Vec<u8>>, w: &Vec<u8>)
    ensures
        final(out).deep_view() == old(out).deep_view().push(w@),
{
    let c = copy_bytes(w);
    let ghost before = out@;
    out.push(c);
    proof {
        assert forall|k: int| 0 <= k < out.len() implies #[trigger] out.deep_view()[k]
            == old(out).deep_view().push(w@)[k] by {
            if k < before.len() {
                assert(out@[k] == before[k]);
            } else {
                assert(out@[k] == c);
            }
        }
        assert(out.deep_view() =~= old(out).deep_view().push(w@));
    }
}

/// Copy of `s[from..]`.
fn tail_of(s: &Vec<Vec<u8>>, from: usize) -> (r: Vec<Vec<u8>>)
    requires
        from <= s.len(),
    ensures
        r.deep_view() == s.deep_view().skip(from as int),
{
    let mut out: Vec<Vec<u8>> = Vec::new();
    assert(out.deep_view() =~= s.deep_view().subrange(from as int, from as int));
    let mut i = from;
    while i < s.len()
        invariant
            from <= i <= s.len(),
            out.deep_view() == s.deep_view().subrange(from as int, i as int),
        decreases s.len() - i,
    {
        push_copy(&mut out, &s[i]);
        proof {
            assert(s.deep_view()[i as int] == s@[i as int]@);
            assert(out.deep_view() =~= s.deep_view().subrange(from as int, i + 1));
        }
        i += 1;
    }
    assert(s.deep_view().subrange(from as int, s.len() as int) =~= s.deep_view().skip(
        from as int,
    ));
    out
}

impl CommandInput {
    /// Append one argument, switching to argv mode if a command line was set.
    pub fn arg(&mut self, a: Vec<u8>)
        ensures
            final(self)@ == match old(self)@ {
                InputModel::Argv(v) => InputModel::Argv(v.push(a@)),
                _ => InputModel::Argv(seq![a@]),
            },
    {
        match self {
            CommandInput::Argv(v) => {
                push_copy(v, &a);
            },
            _ => {
                let mut v: Vec<Vec<u8>> = Vec::new();
                push_copy(&mut v, &a);
                assert(v.deep_view() =~= seq![a@]);
                *self = CommandInput::Argv(v);
            },
        }
    }

    /// Append several arguments, switching to argv mode if a command line was set.
    pub fn args(&mut self, items: Vec<Vec<u8>>)
        ensures
            final(self)@ == match old(self)@ {
                InputModel::Argv(v) => InputModel::Argv(v + items.deep_view()),
                _ => InputModel::Argv(items.deep_view()),
            },
    {
        let mut v: Vec<Vec<u8>> = match self {
            CommandInput::Argv(v) => tail_of(v, 0),
            _ => Vec::new(),
        };
        let ghost base = v.deep_view();
        proof {
            match old(self)@ {
                InputModel::Argv(w) => {
                    assert(w.skip(0) =~= w);
                },
                _ => {
                    assert(base =~= Seq::<Seq<u8>>::empty());
                },
            }
        }
        let mut i: usize = 0;
        while i < items.len()
            invariant
                i <= items.len(),
                v.deep_view() == base + items.deep_view().take(i as int),
            decreases items.len() - i,
        {
            push_copy(&mut v, &items[i]);
            proof {
                assert(items.deep_view()[i as int] == items@[i as int]@);
                assert(v.deep_view() =~= base + items.deep_view().take(i + 1));
            }
            i += 1;
        }
        assert(items.deep_view().take(items.len() as int) =~= items.deep_view());
        assert(Seq::<Seq<u8>>::empty() + items.deep_view() =~= items.deep_view());
        *self = CommandInput::Argv(v);
    }

    /// Set the argument source to one command line, discarding any argv.
    pub fn commandline(&mut self, line: Vec<u8>)
        ensures
            final(self)@ == InputModel::CommandLine(line@),
    {
        *self = CommandInput::CommandLine(line);
    }

    /// The launch this input calls for, with `exe` overriding the loaded file
    /// (see [`spec_launch`]).
    pub fn launch(&self, exe: Option<&[u8]>) -> (r: Result<Launch, ArgvError>)
        ensures
            match r {
                Ok(l) => spec_launch(self@, bytes_of(exe)) == Ok::<
                    (Seq<u8>, Option<Seq<u8>>, Seq<Seq<u8>>),
                    ArgvError,
                >(l.model()),
                Err(e) => spec_launch(self@, bytes_of(exe)) == Err::<
                    (Seq<u8>, Option<Seq<u8>>, Seq<Seq<u8>>),
                    ArgvError,
                >(e),
            },
            exe matches Some(e) ==> (r matches Ok(l) ==> l.program@ == e@),
    {
        proof {
            if let Some(e) = exe {
                lemma_executable_override_is_loaded(self@, e@);
            }
        }
        match self {
            CommandInput::Empty => Err(ArgvError::NoProgram),
            CommandInput::Argv(v) => {
                if v.len() == 0 {
                    match exe {
                        None => Err(ArgvError::EmptyArgv),
                        Some(e) => {
                            let program = vstd::slice::slice_to_vec(e);
                            let args: Vec<Vec<u8>> = Vec::new();
                            assert(args.deep_view() =~= Seq::<Seq<u8>>::empty());
                            Ok(Launch { program, arg0: None, args })
                        },
                    }
                } else {
                    let rest = tail_of(v, 1);
                    proof {
                        assert(v.deep_view()[0] == v@[0]@);
                    }
                    match exe {
                        None => Ok(Launch { program: copy_bytes(&v[0]), arg0: None, args: rest }),
                        Some(e) => Ok(
                            Launch {
                                program: vstd::slice::slice_to_vec(e),
                                arg0: Some(copy_bytes(&v[0])),
                                args: rest,
                            },
                        ),
                    }
                }
            },
            CommandInput::CommandLine(line) => {
                match split(line.as_slice()) {
                    Err(q) => Err(ArgvError::Quote(q)),
                    Ok(words) => {
                        if words.len() == 0 {
                            Err(ArgvError::EmptyCommandLine)
                        } else {
                            let rest = tail_of(&words, 1);
                            proof {
                                assert(words.deep_view()[0] == words@[0]@);
                            }
                            match exe {
                                None => Ok(
                                    Launch { program: copy_bytes(&words[0]), arg0: None, args: rest },
                                ),
                                Some(e) => Ok(
                                    Launch {
                                        program: vstd::slice::slice_to_vec(e),
                                        arg0: None,
                                        args: rest,
                                    },
                                ),
                            }
                        }
                    },
                }
            },
        }
    }
}

/// An executable override decides the file that is loaded, for an argv and
/// for a command line alike, and changes nothing else that the input
/// decides: whenever the launch succeeds the program is the override, and
/// every input that launches without it launches with it, with the same
/// arguments; a command line keeps the same outcome, error or success, and
/// its argv[0] is not passed on.
pub proof fn lemma_executable_override_is_loaded(input: InputModel, e: Seq<u8>)
    ensures
        spec_launch(input, Some(e)) matches Ok(t) ==> t.0 == e,
        spec_launch(input, None) matches Ok(t) ==> (spec_launch(input, Some(e)) matches Ok(u)
            && u.2 == t.2),
        input is CommandLine ==> (spec_launch(input, None) is Ok <==> spec_launch(
            input,
            Some(e),
        ) is Ok),
        input is CommandLine ==> (spec_launch(input, Some(e)) matches Ok(u) ==> u.1 is None),
        input is CommandLine ==> (spec_launch(input, None) matches Err(x) ==> spec_launch(
            input,
            Some(e),
        ) == Err::<(Seq<u8>, Option<Seq<u8>>, Seq<Seq<u8>>), ArgvError>(x)),
{
}

/// A command line made by joining an argv launches what that argv launches
/// (without an executable override): the program is argv[0], the arguments
/// the rest.
pub proof fn lemma_joined_commandline_launches_argv(argv: Seq<Seq<u8>>)
    requires
        argv.len() > 0,
    ensures
        spec_launch(InputModel::CommandLine(spec_join(argv)), None) == spec_launch(
            InputModel::Argv(argv),
            None,
        ),
{
    crate::quote::posix::lemma_split_join_round_trip(argv);
}

} // verus!
