//! The command line of the server.

use crate::text::{chars_of, copy_string, int_of_text, owned, parse_usize_chars, str_eq, usize_of_text};
use vstd::prelude::*;

verus! {

/// What the command line asks for.
#[derive(Debug, Clone, PartialEq)]
pub struct CliOptions {
    pub port: u16,
    pub host: String,
    pub db_path: Option<String>,
    pub web_dir: Option<String>,
    pub no_web: bool,
    pub db_check: bool,
    pub help: bool,
}

pub struct CliView {
    pub port: u16,
    pub host: Seq<char>,
    pub db_path: Option<Seq<char>>,
    pub web_dir: Option<Seq<char>>,
    pub no_web: bool,
    pub db_check: bool,
    pub help: bool,
}

pub open spec fn opt_text(o: Option<String>) -> Option<Seq<char>> {
    match o {
        Some(s) => Some(s@),
        None => None,
    }
}

impl View for CliOptions {
    type V = CliView;

    open spec fn view(&self) -> CliView {
        CliView {
            port: self.port,
            host: self.host@,
            db_path: opt_text(self.db_path),
            web_dir: opt_text(self.web_dir),
            no_web: self.no_web,
            db_check: self.db_check,
            help: self.help,
        }
    }
}

/// `s.parse::<u16>()`.
pub open spec fn u16_of_text(s: Seq<char>) -> Option<u16> {
    match usize_of_text(s) {
        Some(v) => if v <= 65535 {
            Some(v as u16)
        } else {
            None
        },
        None => None,
    }
}

/// The defaults: port 8787 on 127.0.0.1, the database found automatically, the
/// web folder looked for, no self-check.
pub open spec fn cli_default() -> CliView {
    CliView {
        port: 8787,
        host: "127.0.0.1"@,
        db_path: None,
        web_dir: None,
        no_web: false,
        db_check: false,
        help: false,
    }
}

pub open spec fn arg_at(args: Seq<Seq<char>>, i: int) -> Option<Seq<char>> {
    if 0 <= i < args.len() {
        Some(args[i])
    } else {
        None
    }
}

/// The options after reading `args` from position `i` (the program name is at 0).
/// An option that takes a value takes the next argument; a `--port` that does not
/// read as a port number gives 8787; `--help` ends the reading; anything
/// unknown is passed over.
pub open spec fn cli_from(args: Seq<Seq<char>>, i: int, o: CliView) -> CliView
    decreases args.len() + 1 - i,
{
    if i < 0 || i >= args.len() {
        o
    } else {
        let a = args[i];
        let next = arg_at(args, i + 1);
        if a == "--port"@ || a == "-p"@ {
            cli_from(
                args,
                i + 2,
                match next {
                    Some(v) => CliView {
                        port: match u16_of_text(v) {
                            Some(p) => p,
                            None => 8787,
                        },
                        ..o
                    },
                    None => o,
                },
            )
        } else if a == "--host"@ {
            cli_from(
                args,
                i + 2,
                match next {
                    Some(v) => CliView { host: v, ..o },
                    None => o,
                },
            )
        } else if a == "--db"@ || a == "-d"@ {
            cli_from(args, i + 2, CliView { db_path: next, ..o })
        } else if a == "--web-dir"@ || a == "-w"@ {
            cli_from(args, i + 2, CliView { web_dir: next, ..o })
        } else if a == "--no-web"@ {
            cli_from(args, i + 1, CliView { no_web: true, ..o })
        } else if a == "--db-check"@ || a == "--db-info"@ {
            cli_from(args, i + 1, CliView { db_check: true, ..o })
        } else if a == "--help"@ || a == "-h"@ {
            CliView { help: true, ..o }
        } else {
            cli_from(args, i + 1, o)
        }
    }
}

fn port_of(v: &str) -> (r: u16)
    ensures
        r == match u16_of_text(v@) {
            Some(p) => p,
            None => 8787u16,
        },
{
    let cs = chars_of(v);
    match parse_usize_chars(&cs) {
        Some(n) => if n <= 65535 {
            n as u16
        } else {
            8787
        },
        None => 8787,
    }
}

fn next_arg(args: &Vec<String>, i: usize) -> (r: Option<String>)
    ensures
        opt_text(r) == arg_at(args.deep_view(), i + 1),
{
    assert(args.deep_view().len() == args.len());
    if i < usize::MAX && i + 1 < args.len() {
        assert(args.deep_view()[i + 1] == args@[i + 1]@);
        Some(copy_string(&args[i + 1]))
    } else {
        None
    }
}

/// The position after an option that takes a value (the end when it has none).
fn skip_value(i: usize, n: usize) -> (r: usize)
    requires
        i < n,
    ensures
        r <= n,
        r > i,
        r == i + 2 || (r == n && i + 2 > n),
{
    if i + 1 >= n {
        n
    } else {
        i + 2
    }
}

/// Reads the command line (`args[0]` is the program).
pub fn parse_args(args: &Vec<String>) -> (r: CliOptions)
    ensures
        r@ == cli_from(args.deep_view(), 1, cli_default()),
{
    let ghost av = args.deep_view();
    let mut o = CliOptions {
        port: 8787,
        host: owned("127.0.0.1"),
        db_path: None,
        web_dir: None,
        no_web: false,
        db_check: false,
        help: false,
    };
    let mut i: usize = 1;
    while i < args.len()
        invariant
            av == args.deep_view(),
            av.len() == args.len(),
            i >= 1,
            cli_from(av, 1, cli_default()) == cli_from(av, i as int, o@),
        decreases args.len() - i,
    {
        assert(av[i as int] == args@[i as int]@);
        let a = args[i].as_str();
        let nxt = next_arg(args, i);
        let j = skip_value(i, args.len());
        if str_eq(a, "--port") || str_eq(a, "-p") {
            match nxt {
                Some(v) => {
                    o.port = port_of(v.as_str());
                },
                None => {},
            }
            assert(cli_from(av, i + 2, o@) == cli_from(av, j as int, o@));
            i = j;
        } else if str_eq(a, "--host") {
            match nxt {
                Some(v) => {
                    o.host = v;
                },
                None => {},
            }
            assert(cli_from(av, i + 2, o@) == cli_from(av, j as int, o@));
            i = j;
        } else if str_eq(a, "--db") || str_eq(a, "-d") {
            o.db_path = nxt;
            assert(cli_from(av, i + 2, o@) == cli_from(av, j as int, o@));
            i = j;
        } else if str_eq(a, "--web-dir") || str_eq(a, "-w") {
            o.web_dir = nxt;
            assert(cli_from(av, i + 2, o@) == cli_from(av, j as int, o@));
            i = j;
        } else if str_eq(a, "--no-web") {
            o.no_web = true;
            i = i + 1;
        } else if str_eq(a, "--db-check") || str_eq(a, "--db-info") {
            o.db_check = true;
            i = i + 1;
        } else if str_eq(a, "--help") || str_eq(a, "-h") {
            o.help = true;
            return o;
        } else {
            i = i + 1;
        }
    }
    o
}

} // verus!
