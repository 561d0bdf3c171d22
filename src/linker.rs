//! Link planning: the configuration of a link command, its arguments for each
//! linker, the artifact's path and whether it must be linked again.
use vstd::prelude::*;

use crate::compiler::{CommandView, CompileCommand, FileView, HostOs};
use crate::strings::{append_strings, prefixed, push_string};
use crate::path::{join, joined, normalize, normalized, set_extension, views, with_extension};

verus! {

#[derive(Debug, Clone, Copy, PartialEq, Eq, Structural)]
pub enum BinType {
    StaticLib,
    DynamicLib,
    Binary,
}

#[allow(non_camel_case_types)]
#[derive(Debug, Clone, Copy, PartialEq, Eq, Structural)]
pub enum Linker {
    Clang,
    LLVM_LD,
    Gcc,
    Ld,
    Link,
}

pub open spec fn default_linker(host: HostOs) -> Linker {
    match host {
        HostOs::Windows => Linker::Link,
        HostOs::MacOs => Linker::LLVM_LD,
        HostOs::Linux => Linker::Ld,
    }
}

/// The artifact's file extension for each kind and host.
pub open spec fn exec_ext(bin: BinType, host: HostOs) -> Seq<char> {
    match (bin, host) {
        (BinType::Binary, HostOs::Windows) => "exe"@,
        (BinType::Binary, _) => ""@,
        (BinType::StaticLib, HostOs::Windows) => "lib"@,
        (BinType::StaticLib, _) => "a"@,
        (BinType::DynamicLib, HostOs::Windows) => "dll"@,
        (BinType::DynamicLib, _) => "so"@,
    }
}

/// The program run for each linker and kind of artifact: static libraries go
/// to an archiver where the linker is a compiler driver.
pub open spec fn linker_program(l: Linker, bin: BinType) -> Seq<char> {
    match (l, bin) {
        (Linker::Link, BinType::StaticLib) => "lib.exe"@,
        (Linker::Link, _) => "link.exe"@,
        (Linker::Clang, BinType::StaticLib) => "llvm-ar"@,
        (Linker::Clang, _) => "clang"@,
        (Linker::Gcc, BinType::StaticLib) => "ar"@,
        (Linker::Gcc, _) => "gcc"@,
        (Linker::LLVM_LD, _) => "lld"@,
        (Linker::Ld, _) => "ld"@,
    }
}

pub open spec fn shared_flag(l: Linker) -> Seq<char> {
    if l == Linker::Link {
        "/DLL"@
    } else {
        "-shared"@
    }
}

pub open spec fn out_args(l: Linker, out: Seq<char>) -> Seq<Seq<char>> {
    if l == Linker::Link {
        seq!["/OUT:"@ + out]
    } else {
        seq!["-o"@, out]
    }
}

pub open spec fn lib_args(l: Linker, lib: Seq<char>) -> Seq<Seq<char>> {
    if l == Linker::Link {
        seq![lib]
    } else {
        seq!["-l"@, lib]
    }
}

pub open spec fn lib_dir_args(l: Linker, dir: Seq<char>) -> Seq<Seq<char>> {
    if l == Linker::Link {
        seq!["/LIBPATH:"@ + dir]
    } else {
        seq!["-L"@, dir]
    }
}

/// The arguments of each item in order: search-directory arguments when `dirs`
/// holds, library arguments otherwise.
pub open spec fn flat_args(l: Linker, items: Seq<Seq<char>>, dirs: bool) -> Seq<Seq<char>>
    decreases items.len(),
{
    if items.len() == 0 {
        Seq::empty()
    } else {
        flat_args(l, items.drop_last(), dirs) + if dirs {
            lib_dir_args(l, items.last())
        } else {
            lib_args(l, items.last())
        }
    }
}

/// Whether the artifact must be linked again: its time is unknown, or some
/// object's time is unknown or not earlier than the artifact's.
pub open spec fn needs_relink(out: Option<i128>, objects: Seq<Option<i128>>) -> bool {
    match out {
        None => true,
        Some(t) => exists|i: int|
            0 <= i < objects.len() && match #[trigger] objects[i] {
                None => true,
                Some(o) => o >= t,
            },
    }
}

/// A link command: what to produce from the objects of a compile command.
pub struct LinkerCommand<'a> {
    compile_command: &'a CompileCommand,
    bin_type: BinType,
    linker: Linker,
    name: String,
    links: Vec<String>,
    link_dirs: Vec<String>,
    flags: Vec<String>,
    link_sys_deafult: bool,
}

/// Stages a `LinkerCommand`.
pub struct LinkerCommandBuilder<'a> {
    inner: LinkerCommand<'a>,
}

pub struct LinkView {
    pub command: CommandView,
    pub bin_type: BinType,
    pub linker: Linker,
    pub name: Seq<char>,
    pub links: Seq<Seq<char>>,
    pub link_dirs: Seq<Seq<char>>,
    pub flags: Seq<Seq<char>>,
    pub link_sys_default: bool,
}

impl<'a> View for LinkerCommand<'a> {
    type V = LinkView;

    closed spec fn view(&self) -> LinkView {
        LinkView {
            command: self.compile_command@,
            bin_type: self.bin_type,
            linker: self.linker,
            name: self.name@,
            links: views(self.links@),
            link_dirs: views(self.link_dirs@),
            flags: views(self.flags@),
            link_sys_default: self.link_sys_deafult,
        }
    }
}

impl<'a> View for LinkerCommandBuilder<'a> {
    type V = LinkView;

    closed spec fn view(&self) -> LinkView {
        self.inner@
    }
}

/// A fresh link configuration: an executable named `a.exe`, the host's
/// linker, nothing else.
pub open spec fn initial_link(command: CommandView) -> LinkView {
    LinkView {
        command,
        bin_type: BinType::Binary,
        linker: default_linker(command.host),
        name: "a.exe"@,
        links: Seq::empty(),
        link_dirs: Seq::empty(),
        flags: Seq::empty(),
        link_sys_default: false,
    }
}

/// The artifact's path: the name with the kind's extension, in the output
/// directory.
pub open spec fn artifact_path(v: LinkView) -> Seq<char> {
    joined(v.command.out_dir, with_extension(v.name, exec_ext(v.bin_type, v.command.host)))
}

/// The arguments the linker is run with.
pub open spec fn link_args(v: LinkView) -> Seq<Seq<char>> {
    let shared: Seq<Seq<char>> = if v.bin_type == BinType::DynamicLib {
        seq![shared_flag(v.linker)]
    } else {
        Seq::empty()
    };
    let logo: Seq<Seq<char>> = if v.linker == Linker::Link {
        seq!["/nologo"@]
    } else {
        Seq::empty()
    };
    shared + logo + out_args(v.linker, artifact_path(v)) + flat_args(v.linker, v.link_dirs, true)
        + v.command.files.map_values(|f: FileView| f.out) + flat_args(v.linker, v.links, false)
        + v.flags
}

impl Linker {
    pub fn sys_default(host: HostOs) -> (r: Linker)
        ensures
            r == default_linker(host),
    {
        match host {
            HostOs::Windows => Linker::Link,
            HostOs::MacOs => Linker::LLVM_LD,
            HostOs::Linux => Linker::Ld,
        }
    }
}

fn default_exec_name() -> (r: &'static str)
    ensures
        r@ == "a.exe"@,
{
    "a.exe"
}

/// Each path normalized, in order.
fn normalize_all(paths: &Vec<String>) -> (r: Vec<String>)
    ensures
        views(r@) == views(paths@).map_values(|p: Seq<char>| normalized(p)),
{
    let mut r: Vec<String> = Vec::new();
    let mut i: usize = 0;
    while i < paths.len()
        invariant
            i <= paths@.len(),
            views(r@) =~= views(paths@).take(i as int).map_values(|p: Seq<char>| normalized(p)),
        decreases paths@.len() - i,
    {
        push_string(&mut r, normalize(paths[i].as_str()));
        assert(views(paths@).take(i + 1) =~= views(paths@).take(i as int).push(
            views(paths@)[i as int],
        ));
        i = i + 1;
    }
    assert(views(paths@).take(paths@.len() as int) =~= views(paths@));
    r
}

impl<'a> LinkerCommandBuilder<'a> {
    fn new(command: &'a CompileCommand) -> (r: LinkerCommandBuilder<'a>)
        ensures
            r@ == initial_link(command@),
    {
        let r = LinkerCommandBuilder {
            inner: LinkerCommand {
                compile_command: command,
                bin_type: BinType::Binary,
                linker: Linker::sys_default(command.host()),
                name: String::from_str(default_exec_name()),
                links: Vec::new(),
                link_dirs: Vec::new(),
                flags: Vec::new(),
                link_sys_deafult: false,
            },
        };
        assert(r@.links =~= Seq::<Seq<char>>::empty());
        assert(r@.link_dirs =~= Seq::<Seq<char>>::empty());
        assert(r@.flags =~= Seq::<Seq<char>>::empty());
        r
    }

    pub fn build(self) -> (r: LinkerCommand<'a>)
        ensures
            r@ == self@,
    {
        self.inner
    }

    pub fn bin_type(self, bin_type: BinType) -> (r: Self)
        ensures
            r@ == (LinkView { bin_type, ..self@ }),
    {
        let mut s = self;
        s.inner.bin_type = bin_type;
        s
    }

    pub fn link_sys_deafult(self, link: bool) -> (r: Self)
        ensures
            r@ == (LinkView { link_sys_default: link, ..self@ }),
    {
        let mut s = self;
        s.inner.link_sys_deafult = link;
        s
    }

    pub fn name(self, name: &str) -> (r: Self)
        ensures
            r@ == (LinkView { name: name@, ..self@ }),
    {
        let mut s = self;
        s.inner.name = String::from_str(name);
        s
    }

    pub fn linker(self, linker: Linker) -> (r: Self)
        ensures
            r@ == (LinkView { linker, ..self@ }),
    {
        let mut s = self;
        s.inner.linker = linker;
        s
    }

    /// Adds a library to link against; its path is normalized.
    pub fn link(self, link: &str) -> (r: Self)
        ensures
            r@ == (LinkView { links: self@.links.push(normalized(link@)), ..self@ }),
    {
        let mut s = self;
        push_string(&mut s.inner.links, normalize(link));
        s
    }

    pub fn links(self, links: Vec<String>) -> (r: Self)
        ensures
            r@ == (LinkView {
                links: self@.links + views(links@).map_values(|p: Seq<char>| normalized(p)),
                ..self@
            }),
    {
        let mut s = self;
        append_strings(&mut s.inner.links, normalize_all(&links));
        s
    }

    pub fn set_links(self, links: Vec<String>) -> (r: Self)
        ensures
            r@ == (LinkView {
                links: views(links@).map_values(|p: Seq<char>| normalized(p)),
                ..self@
            }),
    {
        let mut s = self;
        s.inner.links = normalize_all(&links);
        s
    }

    pub fn link_dir(self, dir: &str) -> (r: Self)
        ensures
            r@ == (LinkView { link_dirs: self@.link_dirs.push(dir@), ..self@ }),
    {
        let mut s = self;
        push_string(&mut s.inner.link_dirs, String::from_str(dir));
        s
    }

    pub fn link_dirs(self, dirs: Vec<String>) -> (r: Self)
        ensures
            r@ == (LinkView { link_dirs: self@.link_dirs + views(dirs@), ..self@ }),
    {
        let mut s = self;
        append_strings(&mut s.inner.link_dirs, dirs);
        s
    }

    pub fn set_link_dirs(self, dirs: Vec<String>) -> (r: Self)
        ensures
            r@ == (LinkView { link_dirs: views(dirs@), ..self@ }),
    {
        let mut s = self;
        s.inner.link_dirs = dirs;
        s
    }

    pub fn flag(self, flag: &str) -> (r: Self)
        ensures
            r@ == (LinkView { flags: self@.flags.push(flag@), ..self@ }),
    {
        let mut s = self;
        push_string(&mut s.inner.flags, String::from_str(flag));
        s
    }

    pub fn flags(self, flags: Vec<String>) -> (r: Self)
        ensures
            r@ == (LinkView { flags: self@.flags + views(flags@), ..self@ }),
    {
        let mut s = self;
        append_strings(&mut s.inner.flags, flags);
        s
    }

    pub fn set_flags(self, flags: Vec<String>) -> (r: Self)
        ensures
            r@ == (LinkView { flags: views(flags@), ..self@ }),
    {
        let mut s = self;
        s.inner.flags = flags;
        s
    }
}

impl<'a> LinkerCommand<'a> {
    pub fn builder(command: &'a CompileCommand) -> (r: LinkerCommandBuilder<'a>)
        ensures
            r@ == initial_link(command@),
    {
        LinkerCommandBuilder::new(command)
    }

    fn get_exec_ext(&self) -> (r: &'static str)
        ensures
            r@ == exec_ext(self@.bin_type, self@.command.host),
    {
        match (self.bin_type, self.compile_command.host()) {
            (BinType::Binary, HostOs::Windows) => "exe",
            (BinType::Binary, _) => "",
            (BinType::StaticLib, HostOs::Windows) => "lib",
            (BinType::StaticLib, _) => "a",
            (BinType::DynamicLib, HostOs::Windows) => "dll",
            (BinType::DynamicLib, _) => "so",
        }
    }

    /// The path of the artifact (see `artifact_path`).
    pub fn out_file(&self) -> (r: String)
        ensures
            r@ == artifact_path(self@),
    {
        let file = set_extension(self.name.as_str(), self.get_exec_ext());
        join(self.compile_command.out_dir(), file.as_str())
    }

    fn to_out(&self) -> (r: Vec<String>)
        ensures
            views(r@) == out_args(self@.linker, artifact_path(self@)),
    {
        let out = self.out_file();
        let mut r: Vec<String> = Vec::new();
        proof {
            reveal_strlit("/OUT:");
            reveal_strlit("-o");
        }
        if self.linker == Linker::Link {
            push_string(&mut r, prefixed("/OUT:", out.as_str()));
        } else {
            push_string(&mut r, String::from_str("-o"));
            push_string(&mut r, out);
        }
        assert(views(r@) =~= out_args(self@.linker, artifact_path(self@)));
        r
    }

    fn link_file(&self, file: &str) -> (r: Vec<String>)
        ensures
            views(r@) == lib_args(self@.linker, file@),
    {
        let mut r: Vec<String> = Vec::new();
        proof {
            reveal_strlit("-l");
        }
        if self.linker != Linker::Link {
            push_string(&mut r, String::from_str("-l"));
        }
        push_string(&mut r, String::from_str(file));
        assert(views(r@) =~= lib_args(self@.linker, file@));
        r
    }

    fn link_dir(&self, dir: &str) -> (r: Vec<String>)
        ensures
            views(r@) == lib_dir_args(self@.linker, dir@),
    {
        let mut r: Vec<String> = Vec::new();
        proof {
            reveal_strlit("/LIBPATH:");
            reveal_strlit("-L");
        }
        if self.linker == Linker::Link {
            push_string(&mut r, prefixed("/LIBPATH:", dir));
        } else {
            push_string(&mut r, String::from_str("-L"));
            push_string(&mut r, String::from_str(dir));
        }
        assert(views(r@) =~= lib_dir_args(self@.linker, dir@));
        r
    }

    /// Whether the artifact must be linked again, given its modification time
    /// and those of the objects, in the order of the compile command's units
    /// (`None` where a time cannot be read).
    pub fn should_rerun(&self, out_time: Option<i128>, object_times: &Vec<Option<i128>>) -> (r:
        bool)
        requires
            object_times@.len() == self@.command.files.len(),
        ensures
            r == needs_relink(out_time, object_times@),
    {
        let t = match out_time {
            Some(t) => t,
            None => {
                return true;
            },
        };
        let mut i: usize = 0;
        while i < object_times.len()
            invariant
                i <= object_times@.len(),
                out_time == Some(t),
                forall|j: int|
                    0 <= j < i ==> match #[trigger] object_times@[j] {
                        None => false,
                        Some(o) => o < t,
                    },
            decreases object_times@.len() - i,
        {
            match object_times[i] {
                None => {
                    return true;
                },
                Some(o) => {
                    if o >= t {
                        return true;
                    }
                },
            }
            i = i + 1;
        }
        false
    }

    /// The program the link runs (see `linker_program`).
    pub fn linker(&self) -> (r: &'static str)
        ensures
            r@ == linker_program(self@.linker, self@.bin_type),
    {
        match (self.linker, self.bin_type) {
            (Linker::Link, BinType::StaticLib) => "lib.exe",
            (Linker::Link, _) => "link.exe",
            (Linker::Clang, BinType::StaticLib) => "llvm-ar",
            (Linker::Clang, _) => "clang",
            (Linker::Gcc, BinType::StaticLib) => "ar",
            (Linker::Gcc, _) => "gcc",
            (Linker::LLVM_LD, _) => "lld",
            (Linker::Ld, _) => "ld",
        }
    }

    fn shared_flag(&self) -> (r: &'static str)
        ensures
            r@ == shared_flag(self@.linker),
    {
        if self.linker == Linker::Link {
            "/DLL"
        } else {
            "-shared"
        }
    }

    /// The object files that are linked, in the order of the compile
    /// command's units.
    pub fn objects(&self) -> (r: Vec<String>)
        ensures
            views(r@) == self@.command.files.map_values(|f: FileView| f.out),
    {
        self.compile_command.get_link_files()
    }

    /// The directory the link runs in: that of the compile command.
    pub fn working_dir(&self) -> (r: &str)
        ensures
            r@ == self@.command.working_directory,
    {
        self.compile_command.working_dir()
    }

    /// The arguments the linker is run with (see `link_args`).
    pub fn build_command(&self) -> (r: Vec<String>)
        ensures
            views(r@) == link_args(self@),
    {
        let mut r: Vec<String> = Vec::new();
        proof {
            reveal_strlit("/nologo");
        }
        if self.bin_type == BinType::DynamicLib {
            push_string(&mut r, String::from_str(self.shared_flag()));
        }
        if self.linker == Linker::Link {
            push_string(&mut r, String::from_str("/nologo"));
        }
        append_strings(&mut r, self.to_out());
        let ghost head = views(r@);
        let mut i: usize = 0;
        while i < self.link_dirs.len()
            invariant
                i <= self.link_dirs@.len(),
                views(r@) =~= head + flat_args(self@.linker, self@.link_dirs.take(i as int), true),
            decreases self.link_dirs@.len() - i,
        {
            append_strings(&mut r, self.link_dir(self.link_dirs[i].as_str()));
            assert(self@.link_dirs.take(i + 1).drop_last() =~= self@.link_dirs.take(i as int));
            i = i + 1;
        }
        assert(self@.link_dirs.take(self.link_dirs@.len() as int) =~= self@.link_dirs);
        append_strings(&mut r, self.compile_command.get_link_files());
        let ghost mid = views(r@);
        let mut j: usize = 0;
        while j < self.links.len()
            invariant
                j <= self.links@.len(),
                views(r@) =~= mid + flat_args(self@.linker, self@.links.take(j as int), false),
            decreases self.links@.len() - j,
        {
            append_strings(&mut r, self.link_file(self.links[j].as_str()));
            assert(self@.links.take(j + 1).drop_last() =~= self@.links.take(j as int));
            j = j + 1;
        }
        assert(self@.links.take(self.links@.len() as int) =~= self@.links);
        let mut k: usize = 0;
        while k < self.flags.len()
            invariant
                k <= self.flags@.len(),
                views(r@) =~= mid + flat_args(self@.linker, self@.links, false) + self@.flags.take(
                    k as int,
                ),
            decreases self.flags@.len() - k,
        {
            push_string(&mut r, self.flags[k].clone());
            assert(self@.flags.take(k + 1) =~= self@.flags.take(k as int).push(self@.flags[k as int]));
            k = k + 1;
        }
        assert(self@.flags.take(self.flags@.len() as int) =~= self@.flags);
        r
    }
}

} // verus!
