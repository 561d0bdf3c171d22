//! Rendering of the compile-command database: one record per unit, with the
//! directory, the source, the object and the arguments the unit compiles with.
use vstd::prelude::*;

use crate::compiler::{
    driver_name, option_args, CommandView, CompilationFile, CompileCommand, FileView,
};

verus! {

/// How one character is written inside a quoted string.
pub open spec fn escape_char(c: char) -> Seq<char> {
    if c == '"' {
        seq!['\\', '"']
    } else if c == '\\' {
        seq!['\\', '\\']
    } else if c == '\n' {
        seq!['\\', 'n']
    } else if c == '\r' {
        seq!['\\', 'r']
    } else if c == '\t' {
        seq!['\\', 't']
    } else {
        seq![c]
    }
}

pub open spec fn escaped(s: Seq<char>) -> Seq<char>
    decreases s.len(),
{
    if s.len() == 0 {
        Seq::empty()
    } else {
        escaped(s.drop_last()) + escape_char(s.last())
    }
}

/// `s` as a quoted string literal.
pub open spec fn quoted(s: Seq<char>) -> Seq<char> {
    seq!['"'] + escaped(s) + seq!['"']
}

/// Each argument as `, "<arg>"`, in order.
pub open spec fn arg_tail(args: Seq<Seq<char>>) -> Seq<char>
    decreases args.len(),
{
    if args.len() == 0 {
        Seq::empty()
    } else {
        arg_tail(args.drop_last()) + ", "@ + quoted(args.last())
    }
}

/// The record of one unit.
pub open spec fn record(root: Seq<char>, cmd: CommandView, f: FileView) -> Seq<char> {
    "{\"directory\": "@ + quoted(root) + ",\"file\": "@ + quoted(f.src) + ",\"output\": "@ + quoted(
        f.out,
    ) + ",\"arguments\": ["@ + quoted(driver_name(cmd.compiler, cmd.lang)) + ", \"-c\", "@
        + quoted(f.src) + ", \"-o\", "@ + quoted(f.out) + arg_tail(option_args(cmd)) + "]}"@
}

/// The records of the given units, separated by `, `.
pub open spec fn records(root: Seq<char>, cmd: CommandView, fs: Seq<FileView>) -> Seq<char>
    decreases fs.len(),
{
    if fs.len() == 0 {
        Seq::empty()
    } else if fs.len() == 1 {
        record(root, cmd, fs[0])
    } else {
        records(root, cmd, fs.drop_last()) + ", "@ + record(root, cmd, fs.last())
    }
}

/// The whole database: every configured unit, stale or not.
pub open spec fn database(root: Seq<char>, cmd: CommandView) -> Seq<char> {
    "[\n"@ + records(root, cmd, cmd.files) + "\n]"@
}

/// `s` as a quoted string literal (see `quoted`).
pub fn quote(s: &str) -> (r: String)
    ensures
        r@ == quoted(s@),
{
    let n = s.unicode_len();
    proof {
        reveal_strlit("\"");
        assert("\""@ =~= seq!['"']);
    }
    let mut r = String::from_str("\"");
    let mut i: usize = 0;
    while i < n
        invariant
            n == s@.len(),
            i <= n,
            r@ == seq!['"'] + escaped(s@.take(i as int)),
        decreases n - i,
    {
        let c = s.get_char(i);
        let ghost prev = r@;
        if c == '"' {
            r.append("\\\"");
        } else if c == '\\' {
            r.append("\\\\");
        } else if c == '\n' {
            r.append("\\n");
        } else if c == '\r' {
            r.append("\\r");
        } else if c == '\t' {
            r.append("\\t");
        } else {
            r.append(s.substring_char(i, i + 1));
        }
        proof {
            reveal_strlit("\"");
            reveal_strlit("\\\"");
            reveal_strlit("\\\\");
            reveal_strlit("\\n");
            reveal_strlit("\\r");
            reveal_strlit("\\t");
            assert("\\\""@ =~= seq!['\\', '"']);
            assert("\\\\"@ =~= seq!['\\', '\\']);
            assert("\\n"@ =~= seq!['\\', 'n']);
            assert("\\r"@ =~= seq!['\\', 'r']);
            assert("\\t"@ =~= seq!['\\', 't']);
            assert("\""@ =~= seq!['"']);
            assert(s@.take(i + 1).drop_last() =~= s@.take(i as int));
            assert(s@.subrange(i as int, i + 1) =~= seq![c]);
            assert(s@.take(i + 1).last() == c);
            assert(r@ =~= prev + escape_char(c));
            assert(escaped(s@.take(i + 1)) == escaped(s@.take(i as int)) + escape_char(c));
            assert(r@ =~= seq!['"'] + escaped(s@.take(i + 1)));
        }
        i = i + 1;
    }
    r.append("\"");
    proof {
        reveal_strlit("\"");
        assert("\""@ =~= seq!['"']);
        assert(s@.take(n as int) =~= s@);
    }
    r
}

/// Each argument as `, "<arg>"` (see `arg_tail`).
pub fn render_args(args: &Vec<String>) -> (r: String)
    ensures
        r@ == arg_tail(crate::path::views(args@)),
{
    proof {
        reveal_strlit(", ");
        reveal_strlit("");
    }
    let ghost vs = crate::path::views(args@);
    let mut r = String::new();
    let mut i: usize = 0;
    while i < args.len()
        invariant
            i <= args@.len(),
            vs == crate::path::views(args@),
            r@ == arg_tail(vs.take(i as int)),
        decreases args@.len() - i,
    {
        r.append(", ");
        let q = quote(args[i].as_str());
        r.append(q.as_str());
        proof {
            assert(vs.take(i + 1).drop_last() =~= vs.take(i as int));
            assert(r@ =~= arg_tail(vs.take(i + 1)));
        }
        i = i + 1;
    }
    assert(vs.take(args@.len() as int) =~= vs);
    r
}

/// Writes the compile-command database of a configuration.
pub struct ConfigGenerator<'a> {
    compiler_command: &'a CompileCommand,
    root_dir: String,
}

impl<'a> ConfigGenerator<'a> {
    pub closed spec fn command(&self) -> CommandView {
        self.compiler_command@
    }

    pub closed spec fn root(&self) -> Seq<char> {
        self.root_dir@
    }

    pub fn new(compiler_command: &'a CompileCommand, root_dir: &str) -> (r: ConfigGenerator<'a>)
        ensures
            r.command() == compiler_command@,
            r.root() == root_dir@,
    {
        ConfigGenerator { compiler_command, root_dir: String::from_str(root_dir) }
    }

    fn generate_file(&self, file: &CompilationFile) -> (r: String)
        ensures
            r@ == record(self.root(), self.command(), file@),
    {
        let cmd = self.compiler_command;
        let mut entry = String::from_str("{\"directory\": ");
        entry.append(quote(self.root_dir.as_str()).as_str());
        entry.append(",\"file\": ");
        entry.append(quote(file.src()).as_str());
        entry.append(",\"output\": ");
        entry.append(quote(file.out()).as_str());
        entry.append(",\"arguments\": [");
        entry.append(quote(cmd.compiler()).as_str());
        entry.append(", \"-c\", ");
        entry.append(quote(file.src()).as_str());
        entry.append(", \"-o\", ");
        entry.append(quote(file.out()).as_str());
        entry.append(cmd.args().as_str());
        entry.append("]}");
        proof {
            reveal_strlit("{\"directory\": ");
            reveal_strlit(",\"file\": ");
            reveal_strlit(",\"output\": ");
            reveal_strlit(",\"arguments\": [");
            reveal_strlit(", \"-c\", ");
            reveal_strlit(", \"-o\", ");
            reveal_strlit("]}");
            assert(entry@ =~= record(self.root(), self.command(), file@));
        }
        entry
    }

    /// The database: a bracketed list of one record per unit.
    pub fn generate(&self) -> (r: String)
        ensures
            r@ == database(self.root(), self.command()),
    {
        proof {
            reveal_strlit("[\n");
            reveal_strlit("\n]");
            reveal_strlit(", ");
        }
        let files = self.compiler_command.files();
        let ghost fs = self.command().files;
        let mut content = String::from_str("[\n");
        let mut i: usize = 0;
        while i < files.len()
            invariant
                i <= files@.len(),
                fs == crate::compiler::file_views(files@),
                content@ == "[\n"@ + records(self.root(), self.command(), fs.take(i as int)),
            decreases files@.len() - i,
        {
            if i != 0 {
                content.append(", ");
            }
            let entry = self.generate_file(&files[i]);
            content.append(entry.as_str());
            proof {
                assert(fs.take(i + 1).drop_last() =~= fs.take(i as int));
                assert(fs[i as int] == files@[i as int]@);
                if i == 0 {
                    assert(fs.take(1)[0] == fs[0]);
                }
                assert(content@ =~= "[\n"@ + records(self.root(), self.command(), fs.take(i + 1)));
            }
            i = i + 1;
        }
        content.append("\n]");
        assert(fs.take(files@.len() as int) =~= fs);
        content
    }
}

} // verus!
