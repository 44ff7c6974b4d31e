//! The command line: what it is asked for, and the lines that it prints.

use vstd::prelude::*;
use vstd::string::*;

use crate::decimal::{fixed, numeral, write_fixed, write_number};
use crate::double::Double;
use crate::profile::AudioProfile;
use crate::text::{same, texts};

verus! {

/// What the command line asks for.
#[derive(Debug)]
pub enum Command {
    /// The number of profiles.
    Count,
    /// The profiles that match a query.
    Search(String),
    /// The response of the profile with a key.
    Response(String),
    /// The response of the profile in a file.
    Import(String),
}

/// What a command says.
pub enum CommandView {
    Count,
    Search(Seq<char>),
    Response(Seq<char>),
    Import(Seq<char>),
}

impl View for Command {
    type V = CommandView;

    open spec fn view(&self) -> CommandView {
        match self {
            Command::Count => CommandView::Count,
            Command::Search(q) => CommandView::Search(q@),
            Command::Response(k) => CommandView::Response(k@),
            Command::Import(f) => CommandView::Import(f@),
        }
    }
}

/// What the arguments ask for, or what is wrong with them; an empty text asks for the
/// usage.
pub open spec fn command_of(args: Seq<Seq<char>>) -> Result<CommandView, Seq<char>> {
    if args.len() == 0 {
        Err(seq![])
    } else if args[0] == "count"@ {
        Ok(CommandView::Count)
    } else if args[0] == "catalog"@ {
        Ok(
            CommandView::Search(
                if args.len() > 1 {
                    args[1]
                } else {
                    seq![]
                },
            ),
        )
    } else if args[0] == "response"@ {
        if args.len() > 1 {
            Ok(CommandView::Response(args[1]))
        } else {
            Err("usage: adtune response <key>"@)
        }
    } else if args[0] == "import"@ {
        if args.len() > 1 {
            Ok(CommandView::Import(args[1]))
        } else {
            Err("usage: adtune import <file>"@)
        }
    } else {
        Err(seq![])
    }
}

/// What the arguments ask for, or what is wrong with them; an empty text asks for the
/// usage.
pub fn parse_command(args: &Vec<String>) -> (r: Result<Command, String>)
    ensures
        command_of(texts(args@)) == match r {
            Ok(c) => Ok(c@),
            Err(e) => Err(e@),
        },
{
    let none: String = String::new();
    assert(none@ =~= seq![]);
    if args.len() == 0 {
        return Err(none);
    }
    if same(&args[0], "count") {
        Ok(Command::Count)
    } else if same(&args[0], "catalog") {
        if args.len() > 1 {
            Ok(Command::Search(args[1].clone()))
        } else {
            Ok(Command::Search(none))
        }
    } else if same(&args[0], "response") {
        if args.len() > 1 {
            Ok(Command::Response(args[1].clone()))
        } else {
            Err("usage: adtune response <key>".to_owned())
        }
    } else if same(&args[0], "import") {
        if args.len() > 1 {
            Ok(Command::Import(args[1].clone()))
        } else {
            Err("usage: adtune import <file>".to_owned())
        }
    } else {
        Err(none)
    }
}

/// The line that says how many profiles there are.
pub fn count_line(n: usize) -> (r: String)
    ensures
        r@ == numeral(n as nat) + " profiles in catalog"@,
{
    write_number(n as u64).concat(" profiles in catalog")
}

/// The line of a profile that was found.
pub fn hit_line(p: &AudioProfile) -> (r: String)
    ensures
        r@ == p@.key + ": "@ + p@.name + "  ·  "@ + p@.form + " · "@ + p@.source,
{
    p.key.clone().concat(": ").concat(&p.name).concat("  ·  ").concat(&p.form).concat(
        " · ",
    ).concat(&p.source)
}

/// The first line of a response.
pub fn response_head(p: &AudioProfile, preamp: Double) -> (r: String)
    ensures
        r@ == p@.name + "  ("@ + numeral(p@.bands.len()) + " bands, preamp "@ + fixed(
            preamp,
            1,
            true,
        ) + " dB)"@,
{
    p.name.clone().concat("  (").concat(&write_number(p.bands.len() as u64)).concat(
        " bands, preamp ",
    ).concat(&write_fixed(preamp, 1, true)).concat(" dB)")
}

/// A text with spaces before it, so that it is at least `width` characters wide.
pub open spec fn padded(s: Seq<char>, width: nat) -> Seq<char> {
    if s.len() >= width {
        s
    } else {
        Seq::new((width - s.len()) as nat, |i: int| ' ') + s
    }
}

/// A frequency in five characters.
pub open spec fn tick_text(hz: u32) -> Seq<char> {
    if hz >= 1000 {
        padded(numeral((hz / 1000) as nat), 4) + "k"@
    } else {
        padded(numeral(hz as nat), 5)
    }
}

fn pad(r: &mut String, s: &str, width: usize)
    ensures
        final(r)@ == old(r)@ + padded(s@, width as nat),
{
    let size: usize = crate::text::chars_of(s).len();
    let ghost head = r@;
    let mut n: usize = size;
    assert(head =~= head + Seq::new(0nat, |i: int| ' '));
    while n < width
        invariant
            size == s@.len(),
            size <= n,
            n <= width || n == size,
            r@ =~= head + Seq::new((n - size) as nat, |i: int| ' '),
        decreases width - n,
    {
        r.push(' ');
        n = n + 1;
    }
    r.append(s);
    assert(r@ =~= head + padded(s@, width as nat));
}

/// A line of a response: the frequency, the level and a bar.
pub open spec fn response_text(hz: u32, level: Double, bar: nat) -> Seq<char> {
    "  "@ + tick_text(hz) + " Hz "@ + padded(fixed(level, 2, true), 6) + " dB |"@ + Seq::new(
        bar,
        |i: int| '#',
    )
}

/// A line of a response: the frequency, the level and a bar of the given length.
pub fn response_line(hz: u32, level: Double, bar: usize) -> (r: String)
    ensures
        r@ == response_text(hz, level, bar as nat),
{
    let mut r: String = "  ".to_owned();
    let ghost first = r@;
    if hz >= 1000 {
        pad(&mut r, &write_number((hz / 1000) as u64), 4);
        r.append("k");
        assert(r@ =~= first + tick_text(hz));
    } else {
        pad(&mut r, &write_number(hz as u64), 5);
    }
    r.append(" Hz ");
    pad(&mut r, &write_fixed(level, 2, true), 6);
    r.append(" dB |");
    let ghost head = r@;
    assert(head =~= head + Seq::new(0nat, |i: int| '#'));
    for i in 0..bar
        invariant
            r@ =~= head + Seq::new(i as nat, |i: int| '#'),
    {
        r.push('#');
    }
    r
}

/// What is said of a key that no profile has.
pub fn unknown_profile(key: &str) -> (r: String)
    ensures
        r@ == "unknown profile '"@ + key@ + "'"@,
{
    "unknown profile '".to_owned().concat(key).concat("'")
}

} // verus!
