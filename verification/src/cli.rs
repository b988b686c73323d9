//! The command line.

use vstd::prelude::*;
use vstd::string::StringExecFns;

use crate::manager::PortInfo;
use crate::text;

verus! {

/// What the command line asks for.
#[derive(Debug)]
pub enum Command {
    /// To serve the tools.
    Serve,
    /// To show the help.
    Help,
    /// To show the version.
    Version,
    /// To list the ports.
    ListPorts,
    /// Something that is not known.
    Unknown(String),
}

/// What arguments ask for: a known word must stand alone; else the first one is not known.
pub open spec fn command_is(args: Seq<String>, command: Command) -> bool {
    if args.len() == 0 {
        command is Serve
    } else if args.len() == 1 && (args[0]@ == "-h"@ || args[0]@ == "--help"@) {
        command is Help
    } else if args.len() == 1 && (args[0]@ == "-V"@ || args[0]@ == "--version"@) {
        command is Version
    } else if args.len() == 1 && args[0]@ == "--list-ports"@ {
        command is ListPorts
    } else {
        command matches Command::Unknown(other) && other@ == args[0]@
    }
}

/// Parses the arguments.
pub fn parse_command(args: &Vec<String>) -> (r: Command)
    ensures
        command_is(args@, r),
{
    if args.len() == 0 {
        return Command::Serve;
    }
    let first = args[0].as_str();
    if args.len() == 1 {
        if text::same(first, "-h") || text::same(first, "--help") {
            return Command::Help;
        }
        if text::same(first, "-V") || text::same(first, "--version") {
            return Command::Version;
        }
        if text::same(first, "--list-ports") {
            return Command::ListPorts;
        }
    }
    Command::Unknown(first.to_owned())
}

/// A text, filled up with blanks to a width.
pub open spec fn padded(s: Seq<char>, width: nat) -> Seq<char> {
    if s.len() < width {
        s + Seq::new((width - s.len()) as nat, |i: int| ' ')
    } else {
        s
    }
}

fn pad(s: &str, width: usize) -> (r: String)
    ensures
        r@ == padded(s@, width as nat),
{
    let mut out = String::new();
    let mut n: usize = 0;
    for c in it: s.chars()
        invariant
            it.seq() == s@,
            out@ == s@.take(it.index() as int),
            n <= it.index(),
            n == it.index() || n == width,
            n <= width,
    {
        out.push(c);
        if n < width {
            n += 1;
        }
        assert(s@.take(it.index() as int + 1) =~= s@.take(it.index() as int).push(c));
    }
    assert(s@.take(s@.len() as int) =~= s@);
    let ghost start = n as int;
    let ghost whole = out@;
    while n < width
        invariant
            start <= n <= width,
            out@ == whole + Seq::new((n - start) as nat, |i: int| ' '),
        decreases width - n,
    {
        let ghost before = out@;
        out.push(' ');
        n += 1;
        assert(out@ =~= whole + Seq::new((n - start) as nat, |i: int| ' '));
    }
    assert(out@ =~= padded(s@, width as nat));
    out
}

/// A line of the list of ports.
pub open spec fn port_line(info: PortInfo) -> Seq<char> {
    "  "@ + padded(info.name@, 12) + " "@ + padded(info.port_type@, 10) + " "@ + info.description@
}

/// Writes the list of ports: a heading, and a line for each port.
pub fn port_lines(ports: &Vec<PortInfo>) -> (r: Vec<String>)
    ensures
        r@.len() == ports@.len() + 1,
        r@[0]@ == "本机可用串口（"@ + text::decimal(ports@.len()) + " 个）:"@,
        forall|i: int| 0 <= i < ports@.len() ==> (#[trigger] r@[i + 1])@ == port_line(ports@[i]),
{
    let mut lines: Vec<String> = Vec::new();
    let mut heading = "本机可用串口（".to_owned();
    heading.append(text::decimal_text(ports.len() as u64).as_str());
    heading.append(" 个）:");
    lines.push(heading);
    let mut i: usize = 0;
    while i < ports.len()
        invariant
            i <= ports@.len(),
            lines@.len() == i + 1,
            lines@[0]@ == "本机可用串口（"@ + text::decimal(ports@.len()) + " 个）:"@,
            forall|k: int| 0 <= k < i ==> (#[trigger] lines@[k + 1])@ == port_line(ports@[k]),
        decreases ports@.len() - i,
    {
        let mut line = "  ".to_owned();
        line.append(pad(ports[i].name.as_str(), 12).as_str());
        line.append(" ");
        line.append(pad(ports[i].port_type.as_str(), 10).as_str());
        line.append(" ");
        line.append(ports[i].description.as_str());
        lines.push(line);
        i += 1;
    }
    lines
}

/// What the command line asks for: without arguments to serve; with one that is known, what it says;
/// anything else is not known, and the first argument is told.
pub proof fn law_commands(args: Seq<String>, command: Command)
    requires
        command_is(args, command),
    ensures
        command is Serve == (args.len() == 0),
        command is Help == (args.len() == 1 && (args[0]@ == "-h"@ || args[0]@ == "--help"@)),
        command is Version == (args.len() == 1 && (args[0]@ == "-V"@ || args[0]@ == "--version"@)),
        command is ListPorts == (args.len() == 1 && args[0]@ == "--list-ports"@),
        command matches Command::Unknown(other) ==> args.len() > 0 && other@ == args[0]@,
        args.len() > 1 ==> command is Unknown,
{
    reveal_strlit("-h");
    reveal_strlit("--help");
    reveal_strlit("-V");
    reveal_strlit("--version");
    reveal_strlit("--list-ports");
    assert("-h"@[1] != "-V"@[1]);
    assert("-h"@.len() != "--version"@.len());
    assert("-h"@.len() != "--list-ports"@.len());
    assert("--help"@.len() != "-V"@.len());
    assert("--help"@.len() != "--version"@.len());
    assert("--help"@.len() != "--list-ports"@.len());
    assert("-V"@.len() != "--list-ports"@.len());
    assert("--version"@.len() != "--list-ports"@.len());
}

/// A line of the list of ports holds the name, the kind and the description in columns: two blanks
/// before the name, which takes at least 12 characters, and the kind at least 10, with a blank
/// behind each.
pub proof fn law_port_line_has_columns(info: PortInfo)
    requires
        info.name@.len() <= 12,
        info.port_type@.len() <= 10,
    ensures
        ({
            let line = port_line(info);
            &&& line.len() == 26 + info.description@.len()
            &&& line.subrange(2, 2 + info.name@.len() as int) == info.name@
            &&& line.subrange(15, 15 + info.port_type@.len() as int) == info.port_type@
            &&& line.skip(26) == info.description@
            &&& forall|i: int|
                0 <= i < 26 && !(2 <= i < 2 + info.name@.len()) && !(15 <= i < 15
                    + info.port_type@.len()) ==> #[trigger] line[i] == ' '
        }),
{
    reveal_strlit("  ");
    reveal_strlit(" ");
    let line = port_line(info);
    assert(line.subrange(2, 2 + info.name@.len() as int) =~= info.name@);
    assert(line.subrange(15, 15 + info.port_type@.len() as int) =~= info.port_type@);
    assert(line.skip(26) =~= info.description@);
}

/// Filling up changes nothing of a text, and adds blanks behind it up to the width.
pub proof fn law_padding(s: Seq<char>, width: nat, i: int)
    ensures
        s.len() >= width ==> padded(s, width) == s,
        s.len() < width ==> padded(s, width).len() == width,
        0 <= i < s.len() ==> padded(s, width)[i] == s[i],
        s.len() <= i < width ==> padded(s, width)[i] == ' ',
{
}

}
