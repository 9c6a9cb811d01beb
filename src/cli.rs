//! Command-line arguments: the command, then its flags. The first argument is
//! the program's own name; leading `-C` arguments are passed over; the next
//! argument names the command; every argument after it is a flag:
//! `--compression <value>`, and a last argument that is the name (of the
//! repository for `init`, of the file for `diff`).

use vstd::prelude::*;
use crate::error::GudError;
use crate::text::str_eq;
use crate::tree::strings_view;

verus! {

/// The command that the arguments ask for.
#[derive(Clone, Copy, Debug, PartialEq, Eq, Structural)]
pub enum CommandType {
    Add,
    Diff,
    Help,
    Init,
    Version,
    Unknown,
}

/// The flags that a command takes.
#[derive(Clone, Copy, Debug, PartialEq, Eq, Structural)]
pub enum FlagOption {
    Compression,
    Name,
}

/// The values given to the flags, the last one given where one repeats.
#[derive(Debug)]
pub struct Flags {
    pub compression: Option<String>,
    pub name: Option<String>,
}

/// The parsed command line.
#[derive(Debug)]
pub struct Options {
    pub command: CommandType,
    pub flags: Flags,
    /// Arguments that were not understood, in order, for the caller to report.
    pub unknown: Vec<String>,
}

/// The command line as plain values.
pub ghost struct ArgsView {
    pub command: CommandType,
    pub compression: Option<Seq<char>>,
    pub name: Option<Seq<char>>,
    pub unknown: Seq<Seq<char>>,
}

pub open spec fn opt_view(o: Option<String>) -> Option<Seq<char>> {
    match o {
        Some(s) => Some(s@),
        None => None,
    }
}

impl Flags {
    /// The value given to a flag.
    pub fn get(&self, option: FlagOption) -> (r: Option<String>)
        ensures
            option == FlagOption::Compression ==> opt_view(r) == opt_view(self.compression),
            option == FlagOption::Name ==> opt_view(r) == opt_view(self.name),
    {
        let value = match option {
            FlagOption::Compression => &self.compression,
            FlagOption::Name => &self.name,
        };
        match value {
            Some(s) => Some(s.clone()),
            None => None,
        }
    }
}

impl Options {
    pub open spec fn view(self) -> ArgsView {
        ArgsView {
            command: self.command,
            compression: opt_view(self.flags.compression),
            name: opt_view(self.flags.name),
            unknown: strings_view(self.unknown@),
        }
    }
}

/// The command that an argument names, if any.
pub open spec fn command_of(a: Seq<char>) -> Option<CommandType> {
    if a == "add"@ {
        Some(CommandType::Add)
    } else if a == "diff"@ {
        Some(CommandType::Diff)
    } else if a == "init"@ {
        Some(CommandType::Init)
    } else if a == "--help"@ {
        Some(CommandType::Help)
    } else if a == "--version"@ {
        Some(CommandType::Version)
    } else {
        None
    }
}

/// The flags read from `rest` onto `acc`. `--compression` takes the next
/// argument, and fails where there is none; the last argument, unless it is
/// such a value, is the name; any other argument is not understood.
pub open spec fn flags_spec(rest: Seq<Seq<char>>, acc: ArgsView) -> Result<ArgsView, GudError>
    decreases rest.len(),
{
    if rest.len() == 0 {
        Ok(acc)
    } else if rest[0] == "--compression"@ {
        if rest.len() < 2 {
            Err(GudError::MissingArgument)
        } else {
            flags_spec(
                rest.subrange(2, rest.len() as int),
                ArgsView {
                    command: acc.command,
                    compression: Some(rest[1]),
                    name: acc.name,
                    unknown: acc.unknown,
                },
            )
        }
    } else if rest.len() == 1 {
        Ok(
            ArgsView {
                command: acc.command,
                compression: acc.compression,
                name: Some(rest[0]),
                unknown: acc.unknown,
            },
        )
    } else {
        flags_spec(
            rest.drop_first(),
            ArgsView {
                command: acc.command,
                compression: acc.compression,
                name: acc.name,
                unknown: acc.unknown.push(rest[0]),
            },
        )
    }
}

/// The command line read from position `i` on, past `-C` arguments.
pub open spec fn args_from(args: Seq<Seq<char>>, i: int) -> Result<ArgsView, GudError>
    decreases args.len() - i,
{
    if i >= args.len() {
        Ok(
            ArgsView {
                command: CommandType::Unknown,
                compression: None,
                name: None,
                unknown: seq![],
            },
        )
    } else if args[i] == "-C"@ {
        args_from(args, i + 1)
    } else {
        let rest = args.subrange(i + 1, args.len() as int);
        match command_of(args[i]) {
            Some(c) => flags_spec(
                rest,
                ArgsView { command: c, compression: None, name: None, unknown: seq![] },
            ),
            None => flags_spec(
                rest,
                ArgsView {
                    command: CommandType::Unknown,
                    compression: None,
                    name: None,
                    unknown: seq![args[i]],
                },
            ),
        }
    }
}

/// What `process_args` makes of a command line.
pub open spec fn args_spec(args: Seq<Seq<char>>) -> Result<ArgsView, GudError> {
    args_from(args, 1)
}

fn command_from(a: &str) -> (r: Option<CommandType>)
    ensures
        r == command_of(a@),
{
    if str_eq(a, "add") {
        Some(CommandType::Add)
    } else if str_eq(a, "diff") {
        Some(CommandType::Diff)
    } else if str_eq(a, "init") {
        Some(CommandType::Init)
    } else if str_eq(a, "--help") {
        Some(CommandType::Help)
    } else if str_eq(a, "--version") {
        Some(CommandType::Version)
    } else {
        None
    }
}

fn process_command_flags(args: &[String], start: usize, options: &mut Options) -> (r: Result<
    (),
    GudError,
>)
    requires
        start <= args@.len(),
    ensures
        r is Ok ==> flags_spec(
            strings_view(args@).subrange(start as int, args@.len() as int),
            old(options).view(),
        ) == Ok::<ArgsView, GudError>(final(options).view()),
        r matches Err(e) ==> flags_spec(
            strings_view(args@).subrange(start as int, args@.len() as int),
            old(options).view(),
        ) == Err::<ArgsView, GudError>(e),
{
    let ghost all = strings_view(args@);
    let ghost target = flags_spec(all.subrange(start as int, args@.len() as int), options.view());
    let mut i: usize = start;
    while i < args.len()
        invariant
            start <= i <= args@.len(),
            all == strings_view(args@),
            flags_spec(all.subrange(i as int, args@.len() as int), options.view()) == target,
            target == flags_spec(all.subrange(start as int, args@.len() as int), old(options).view()),
        decreases args@.len() - i,
    {
        let ghost rest = all.subrange(i as int, args@.len() as int);
        assert(rest[0] == args@[i as int]@);
        if str_eq(args[i].as_str(), "--compression") {
            if i + 1 >= args.len() {
                assert(rest.len() == 1);
                assert(flags_spec(rest, options.view()) == Err::<ArgsView, GudError>(
                    GudError::MissingArgument,
                ));
                return Err(GudError::MissingArgument);
            }
            assert(rest[1] == args@[i as int + 1]@);
            assert(rest.subrange(2, rest.len() as int) =~= all.subrange(
                i as int + 2,
                args@.len() as int,
            ));
            options.flags.compression = Some(args[i + 1].clone());
            i = i + 2;
        } else if i + 1 == args.len() {
            let ghost before = options.view();
            options.flags.name = Some(args[i].clone());
            i = i + 1;
            assert(all.subrange(i as int, args@.len() as int) =~= Seq::<Seq<char>>::empty());
            assert(rest.len() == 1);
            assert(flags_spec(rest, before) == Ok::<ArgsView, GudError>(options.view()));
        } else {
            let ghost before = options.view();
            options.unknown.push(args[i].clone());
            assert(strings_view(options.unknown@) =~= before.unknown.push(rest[0]));
            assert(rest.drop_first() =~= all.subrange(i as int + 1, args@.len() as int));
            i = i + 1;
        }
    }
    assert(all.subrange(i as int, args@.len() as int) =~= Seq::<Seq<char>>::empty());
    Ok(())
}

/// Reads the command line: the command, its flags, and the arguments that
/// were not understood. `--compression` without a value gives `MissingArgument`.
pub fn process_args(args: &[String]) -> (r: Result<Options, GudError>)
    ensures
        match r {
            Ok(o) => args_spec(strings_view(args@)) == Ok::<ArgsView, GudError>(o.view()),
            Err(e) => args_spec(strings_view(args@)) == Err::<ArgsView, GudError>(e),
        },
{
    let ghost all = strings_view(args@);
    let mut i: usize = 1;
    loop
        invariant
            1 <= i,
            all == strings_view(args@),
            args_from(all, i as int) == args_spec(all),
        decreases args@.len() - i,
    {
        if i >= args.len() {
            let o = Options {
                command: CommandType::Unknown,
                flags: Flags { compression: None, name: None },
                unknown: Vec::new(),
            };
            assert(o.view().unknown =~= Seq::<Seq<char>>::empty());
            return Ok(o);
        }
        assert(all[i as int] == args@[i as int]@);
        if str_eq(args[i].as_str(), "-C") {
            i = i + 1;
        } else {
            let mut options = match command_from(args[i].as_str()) {
                Some(c) => Options {
                    command: c,
                    flags: Flags { compression: None, name: None },
                    unknown: Vec::new(),
                },
                None => {
                    let mut unknown: Vec<String> = Vec::new();
                    unknown.push(args[i].clone());
                    Options {
                        command: CommandType::Unknown,
                        flags: Flags { compression: None, name: None },
                        unknown,
                    }
                },
            };
            assert(options.view().unknown =~= (if command_of(all[i as int]) is Some {
                Seq::<Seq<char>>::empty()
            } else {
                seq![all[i as int]]
            }));
            let res = process_command_flags(args, i + 1, &mut options);
            match res {
                Ok(_) => {
                    return Ok(options);
                },
                Err(e) => {
                    return Err(e);
                },
            }
        }
    }
}

} // verus!
