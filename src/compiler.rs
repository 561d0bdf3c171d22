//! Compilation planning: the configuration of a compile command, the flag
//! tables of each toolchain, object paths and which units are stale.
use vstd::prelude::*;

use crate::generator::{arg_tail, database, render_args, ConfigGenerator};
use crate::strings::{prefixed, push_string};
use crate::path::{
    join, joined, lemma_normalized_idempotent, normalize, normalized, parent, parent_of, relative, relative_part, set_extension,
    views, with_extension,
};

verus! {

/// How a batch of compilations ended.
#[derive(Debug, Clone, Copy, PartialEq, Eq, Structural)]
pub enum Status {
    Aborted,
    Success,
}

#[derive(Debug, Clone, Copy, PartialEq, Eq, Structural)]
pub enum Lang {
    C,
    Cpp,
}

#[derive(Debug, Clone, Copy, PartialEq, Eq, Structural)]
pub enum Std {
    C99,
    C11,
}

#[derive(Debug, Clone, Copy, PartialEq, Eq, Structural)]
pub enum Compiler {
    Clang,
    Gcc,
    Msvc,
}

/// The operating system the build runs on.
#[derive(Debug, Clone, Copy, PartialEq, Eq, Structural)]
pub enum HostOs {
    Windows,
    MacOs,
    Linux,
}

#[derive(Debug, Clone)]
pub enum Flag {
    Optimization(OptimizationLevel),
    Debug(Option<String>),
    Files(Vec<String>),
    Definitions(Vec<String>),
    Std(String),
    Target(Target),
}

#[derive(Debug, Clone, Copy, PartialEq, Eq, Structural)]
pub enum Target {
    X86_64,
}

#[derive(Debug, Clone, Copy, PartialEq, Eq, Structural)]
pub enum OptimizationLevel {
    O3,
    O2,
    O1,
    O0,
    Small,
    Fast,
}

/// A requested option that the selected toolchain cannot express; it is left
/// off the command line.
#[derive(Debug, Clone, Copy, PartialEq, Eq, Structural)]
pub enum Warning {
    UnsupportedDebug,
    UnsupportedStd(Std),
    UnsupportedTarget(Target),
}

pub open spec fn default_compiler(host: HostOs) -> Compiler {
    match host {
        HostOs::Windows => Compiler::Msvc,
        HostOs::MacOs => Compiler::Clang,
        HostOs::Linux => Compiler::Gcc,
    }
}

pub open spec fn driver_name(c: Compiler, lang: Lang) -> Seq<char> {
    match (c, lang) {
        (Compiler::Clang, Lang::C) => "clang"@,
        (Compiler::Clang, Lang::Cpp) => "clang++"@,
        (Compiler::Gcc, Lang::C) => "gcc"@,
        (Compiler::Gcc, Lang::Cpp) => "g++"@,
        (Compiler::Msvc, _) => "cl"@,
    }
}

/// The optimization flag of each toolchain.
pub open spec fn opt_flag(c: Compiler, level: OptimizationLevel) -> Seq<char> {
    if c == Compiler::Msvc {
        match level {
            OptimizationLevel::O3 => "/O2"@,
            OptimizationLevel::O2 => "/O2"@,
            OptimizationLevel::O1 => "/O1"@,
            OptimizationLevel::O0 => "/Od"@,
            OptimizationLevel::Fast => "/Ot"@,
            OptimizationLevel::Small => "/Os"@,
        }
    } else {
        match level {
            OptimizationLevel::O3 => "-O3"@,
            OptimizationLevel::O2 => "-O2"@,
            OptimizationLevel::O1 => "-O1"@,
            OptimizationLevel::O0 => "-O0"@,
            OptimizationLevel::Fast => "-Ofast"@,
            OptimizationLevel::Small => "-Os"@,
        }
    }
}

/// The language-standard flag of each toolchain; `None` where it has none.
pub open spec fn std_flag(c: Compiler, std: Std) -> Option<Seq<char>> {
    match (c, std) {
        (Compiler::Msvc, Std::C99) => None,
        (Compiler::Msvc, Std::C11) => Some("/std:c11"@),
        (_, Std::C99) => Some("-std=c99"@),
        (_, Std::C11) => Some("-std=c11"@),
    }
}

/// The target flag: only the Clang family takes one.
pub open spec fn target_flag(c: Compiler, t: Target) -> Option<Seq<char>> {
    match (c, t) {
        (Compiler::Clang, Target::X86_64) => Some("--target=x86-64"@),
        _ => None,
    }
}

/// The debug-information flag: `-g<format>`, none under MSVC.
pub open spec fn debug_flag(c: Compiler, format: Seq<char>) -> Option<Seq<char>> {
    if c == Compiler::Msvc {
        None
    } else {
        Some("-g"@ + format)
    }
}

pub open spec fn include_args(c: Compiler, dir: Seq<char>) -> Seq<Seq<char>> {
    if c == Compiler::Msvc {
        seq!["/I"@, dir]
    } else {
        seq!["-I"@, dir]
    }
}

pub open spec fn definition_arg(c: Compiler, def: Seq<char>) -> Seq<char> {
    if c == Compiler::Msvc {
        "/D"@ + def
    } else {
        "-D"@ + def
    }
}

pub open spec fn source_args(c: Compiler, src: Seq<char>, out: Seq<char>) -> Seq<Seq<char>> {
    if c == Compiler::Msvc {
        seq!["/c"@, src, "/Fo"@ + out]
    } else {
        seq!["-c"@, src, "-o"@, out]
    }
}

pub open spec fn object_ext(c: Compiler) -> Seq<char> {
    if c == Compiler::Msvc {
        "obj"@
    } else {
        "o"@
    }
}

impl Compiler {
    pub fn sys_default(host: HostOs) -> (r: Compiler)
        ensures
            r == default_compiler(host),
    {
        match host {
            HostOs::Windows => Compiler::Msvc,
            HostOs::MacOs => Compiler::Clang,
            HostOs::Linux => Compiler::Gcc,
        }
    }

    /// The driver executable for this toolchain and language.
    pub fn as_str(&self, lang: Lang) -> (r: &'static str)
        ensures
            r@ == driver_name(*self, lang),
    {
        match (self, lang) {
            (Compiler::Clang, Lang::C) => "clang",
            (Compiler::Clang, Lang::Cpp) => "clang++",
            (Compiler::Gcc, Lang::C) => "gcc",
            (Compiler::Gcc, Lang::Cpp) => "g++",
            (Compiler::Msvc, _) => "cl",
        }
    }
}

/// A source file and the object file it compiles to.
#[derive(Debug, Clone)]
pub struct CompilationFile {
    src: String,
    out: String,
}

pub struct FileView {
    pub src: Seq<char>,
    pub out: Seq<char>,
}

impl View for CompilationFile {
    type V = FileView;

    closed spec fn view(&self) -> FileView {
        FileView { src: self.src@, out: self.out@ }
    }
}

/// One entry of a recursive directory listing, in the order of the walk: a
/// directory entered, or a file found in it.
#[derive(Debug, Clone)]
pub enum DirEntry {
    Dir(String),
    File(String),
}

/// A file before finalization: its normalized source, and that path with the
/// extension `o`.
pub open spec fn new_file(src: Seq<char>) -> FileView {
    FileView { src: normalized(src), out: with_extension(normalized(src), "o"@) }
}

/// The object path a unit gets on finalization: its source, without root or
/// leading `..` parts, under `obj_dir`, with the toolchain's object extension.
/// It depends on the source alone, so finalizing again changes nothing.
pub open spec fn finalized_file(f: FileView, obj_dir: Seq<char>, c: Compiler) -> FileView {
    FileView {
        src: f.src,
        out: with_extension(joined(obj_dir, relative_part(f.src)), object_ext(c)),
    }
}

/// The directory that receives the objects.
pub open spec fn obj_dir(out_dir: Seq<char>) -> Seq<char> {
    joined(out_dir, "obj"@)
}

/// The directories that hold the given files, in order (files with no parent
/// contribute none).
pub open spec fn parent_dirs(fs: Seq<FileView>) -> Seq<Seq<char>>
    decreases fs.len(),
{
    if fs.len() == 0 {
        Seq::empty()
    } else {
        let pre = parent_dirs(fs.drop_last());
        match parent_of(fs.last().src) {
            Some(d) => pre.push(d),
            None => pre,
        }
    }
}

/// The directories of a listing.
pub open spec fn listed_dirs(es: Seq<DirEntry>) -> Seq<Seq<char>>
    decreases es.len(),
{
    if es.len() == 0 {
        Seq::empty()
    } else {
        let pre = listed_dirs(es.drop_last());
        match es.last() {
            DirEntry::Dir(d) => pre.push(normalized(d@)),
            DirEntry::File(_) => pre,
        }
    }
}

/// The files of a listing, as compilation units.
pub open spec fn listed_files(es: Seq<DirEntry>) -> Seq<FileView>
    decreases es.len(),
{
    if es.len() == 0 {
        Seq::empty()
    } else {
        let pre = listed_files(es.drop_last());
        match es.last() {
            DirEntry::Dir(_) => pre,
            DirEntry::File(f) => pre.push(new_file(f@)),
        }
    }
}

impl CompilationFile {
    pub fn new(src: &str) -> (r: CompilationFile)
        ensures
            r@ == new_file(src@),
    {
        let src = normalize(src);
        let out = set_extension(src.as_str(), "o");
        proof {
            reveal_strlit("o");
        }
        CompilationFile { src, out }
    }

    /// Places the object under `out`, derived from the source.
    fn prepend_outdir(&mut self, out: &str, ext: &str)
        ensures
            final(self)@.src == old(self)@.src,
            final(self)@.out == with_extension(joined(out@, relative_part(old(self)@.src)), ext@),
    {
        let rel = relative(self.src.as_str());
        let joined = join(out, rel.as_str());
        self.out = set_extension(joined.as_str(), ext);
    }

    pub fn src(&self) -> (r: &str)
        ensures
            r@ == self@.src,
    {
        self.src.as_str()
    }

    pub fn out(&self) -> (r: &str)
        ensures
            r@ == self@.out,
    {
        self.out.as_str()
    }
}

/// The configuration of a compile command: toolchain, options and units.
#[derive(Debug, Clone)]
pub struct CompileCommand {
    compiler: Compiler,
    lang: Lang,
    optimization_level: Option<OptimizationLevel>,
    debug: Option<String>,
    files: Vec<CompilationFile>,
    includes: Vec<String>,
    definitions: Vec<String>,
    std: Option<Std>,
    target: Option<Target>,
    out_dir: String,
    dirs: Vec<String>,
    working_directory: String,
    host: HostOs,
}

/// Stages a `CompileCommand`; `build` finalizes it.
#[derive(Debug, Clone)]
pub struct CompileCommandBuilder {
    inner: CompileCommand,
}

pub struct CommandView {
    pub compiler: Compiler,
    pub lang: Lang,
    pub optimization_level: Option<OptimizationLevel>,
    pub debug: Option<Seq<char>>,
    pub files: Seq<FileView>,
    pub includes: Seq<Seq<char>>,
    pub definitions: Seq<Seq<char>>,
    pub std: Option<Std>,
    pub target: Option<Target>,
    pub out_dir: Seq<char>,
    pub dirs: Seq<Seq<char>>,
    pub working_directory: Seq<char>,
    pub host: HostOs,
}

pub open spec fn file_views(fs: Seq<CompilationFile>) -> Seq<FileView> {
    fs.map_values(|f: CompilationFile| f@)
}

impl View for CompileCommand {
    type V = CommandView;

    closed spec fn view(&self) -> CommandView {
        CommandView {
            compiler: self.compiler,
            lang: self.lang,
            optimization_level: self.optimization_level,
            debug: match self.debug {
                Some(d) => Some(d@),
                None => None,
            },
            files: file_views(self.files@),
            includes: views(self.includes@),
            definitions: views(self.definitions@),
            std: self.std,
            target: self.target,
            out_dir: self.out_dir@,
            dirs: views(self.dirs@),
            working_directory: self.working_directory@,
            host: self.host,
        }
    }
}

impl View for CompileCommandBuilder {
    type V = CommandView;

    closed spec fn view(&self) -> CommandView {
        self.inner@
    }
}

/// A fresh configuration: the host's toolchain, C, no options, no units,
/// output under `./`, run from `.`.
pub open spec fn initial_config(host: HostOs) -> CommandView {
    CommandView {
        compiler: default_compiler(host),
        lang: Lang::C,
        optimization_level: None,
        debug: None,
        files: Seq::empty(),
        includes: Seq::empty(),
        definitions: Seq::empty(),
        std: None,
        target: None,
        out_dir: "./"@,
        dirs: Seq::empty(),
        working_directory: "."@,
        host,
    }
}

/// The configuration after finalization: each unit's object path derived under
/// `<out_dir>/obj` and each include directory normalized.
pub open spec fn finalized(v: CommandView) -> CommandView {
    CommandView {
        files: v.files.map_values(|f: FileView| finalized_file(f, obj_dir(v.out_dir), v.compiler)),
        includes: v.includes.map_values(|d: Seq<char>| normalized(d)),
        ..v
    }
}

/// Finalizing a finalized configuration changes nothing: object paths depend
/// on the sources alone, and normalized include paths stay as they are.
pub proof fn lemma_finalize_twice(v: CommandView)
    ensures
        finalized(finalized(v)) == finalized(v),
{
    let once = finalized(v);
    let twice = finalized(once);
    assert(twice.files =~= once.files);
    assert forall|i: int| 0 <= i < once.includes.len() implies #[trigger] twice.includes[i]
        == once.includes[i] by {
        lemma_normalized_idempotent(v.includes[i]);
    }
    assert(twice.includes =~= once.includes);
}

impl CompileCommand {
    pub fn builder(host: HostOs) -> (r: CompileCommandBuilder)
        ensures
            r@ == initial_config(host),
    {
        CompileCommandBuilder::new(host)
    }

    fn normalize_paths(&mut self)
        ensures
            final(self)@ == finalized(old(self)@),
    {
        let obj = join(self.out_dir.as_str(), "obj");
        proof {
            reveal_strlit("obj");
            reveal_strlit("o");
        }
        let ghost old_files = file_views(self.files@);
        let n = self.files.len();
        let mut files: Vec<CompilationFile> = Vec::new();
        let mut i: usize = 0;
        while i < n
            invariant
                n == self.files@.len(),
                i <= n,
                old_files == file_views(self.files@),
                obj@ == obj_dir(self.out_dir@),
                file_views(files@) =~= old_files.take(i as int).map_values(
                    |f: FileView| finalized_file(f, obj_dir(self.out_dir@), self.compiler),
                ),
            decreases n - i,
        {
            let mut f = CompilationFile {
                src: self.files[i].src.clone(),
                out: self.files[i].out.clone(),
            };
            let ext = if self.compiler == Compiler::Msvc {
                "obj"
            } else {
                "o"
            };
            f.prepend_outdir(obj.as_str(), ext);
            let ghost before = file_views(files@);
            files.push(f);
            proof {
                assert(old_files[i as int] == self.files@[i as int]@);
                assert(f@ == finalized_file(old_files[i as int], obj_dir(self.out_dir@), self.compiler));
                assert(file_views(files@) =~= before.push(f@));
                assert(old_files.take(i + 1) =~= old_files.take(i as int).push(old_files[i as int]));
            }
            i = i + 1;
        }
        let ghost old_includes = views(self.includes@);
        let m = self.includes.len();
        let mut includes: Vec<String> = Vec::new();
        let mut j: usize = 0;
        while j < m
            invariant
                m == self.includes@.len(),
                j <= m,
                old_includes == views(self.includes@),
                views(includes@) =~= old_includes.take(j as int).map_values(
                    |d: Seq<char>| normalized(d),
                ),
            decreases m - j,
        {
            let ghost before = views(includes@);
            let d = normalize(self.includes[j].as_str());
            includes.push(d);
            proof {
                assert(views(includes@) =~= before.push(d@));
                assert(old_includes.take(j + 1) =~= old_includes.take(j as int).push(old_includes[j as int]));
            }
            j = j + 1;
        }
        proof {
            assert(old_files.take(n as int) =~= old_files);
            assert(old_includes.take(m as int) =~= old_includes);
        }
        self.files = files;
        self.includes = includes;
        proof {
            assert(self@ =~= finalized(old(self)@));
        }
    }
}

impl CompilationFile {
    fn duplicate(&self) -> (r: CompilationFile)
        ensures
            r@ == self@,
    {
        CompilationFile { src: self.src.clone(), out: self.out.clone() }
    }
}

impl CompileCommandBuilder {
    fn new(host: HostOs) -> (r: CompileCommandBuilder)
        ensures
            r@ == initial_config(host),
    {
        proof {
            reveal_strlit("./");
            reveal_strlit(".");
        }
        let r = CompileCommandBuilder {
            inner: CompileCommand {
                compiler: Compiler::sys_default(host),
                lang: Lang::C,
                optimization_level: None,
                debug: None,
                files: Vec::new(),
                includes: Vec::new(),
                definitions: Vec::new(),
                std: None,
                target: None,
                out_dir: String::from_str("./"),
                dirs: Vec::new(),
                working_directory: String::from_str("."),
                host,
            },
        };
        assert(r@.files =~= Seq::<FileView>::empty());
        assert(r@.includes =~= Seq::<Seq<char>>::empty());
        assert(r@.definitions =~= Seq::<Seq<char>>::empty());
        assert(r@.dirs =~= Seq::<Seq<char>>::empty());
        r
    }

    fn normalize_path(&mut self)
        ensures
            final(self)@ == finalized(old(self)@),
    {
        self.inner.normalize_paths();
    }

    /// Finalizes the configuration: object paths are derived and include
    /// directories normalized.
    pub fn build(self) -> (r: CompileCommand)
        ensures
            r@ == finalized(self@),
    {
        let mut s = self;
        s.normalize_path();
        s.inner
    }

    pub fn working_dir(self, dir: &str) -> (r: Self)
        ensures
            r@ == (CommandView { working_directory: dir@, ..self@ }),
    {
        let mut s = self;
        s.inner.working_directory = String::from_str(dir);
        s
    }

    pub fn compiler(self, compiler: Compiler) -> (r: Self)
        ensures
            r@ == (CommandView { compiler, ..self@ }),
    {
        let mut s = self;
        s.inner.compiler = compiler;
        s
    }

    pub fn kind(self, lang: Lang) -> (r: Self)
        ensures
            r@ == (CommandView { lang, ..self@ }),
    {
        let mut s = self;
        s.inner.lang = lang;
        s
    }

    pub fn opt_level(self, level: OptimizationLevel) -> (r: Self)
        ensures
            r@ == (CommandView { optimization_level: Some(level), ..self@ }),
    {
        let mut s = self;
        s.inner.optimization_level = Some(level);
        s
    }

    pub fn debug(self, debug_output: String) -> (r: Self)
        ensures
            r@ == (CommandView { debug: Some(debug_output@), ..self@ }),
    {
        let mut s = self;
        s.inner.debug = Some(debug_output);
        s
    }

    pub fn out_dir(self, out_dir: &str) -> (r: Self)
        ensures
            r@ == (CommandView { out_dir: out_dir@, ..self@ }),
    {
        let mut s = self;
        s.inner.out_dir = String::from_str(out_dir);
        s
    }

    /// Adds one unit; the directory that holds it is recorded for the output tree.
    pub fn file(self, file: CompilationFile) -> (r: Self)
        ensures
            r@ == (CommandView {
                files: self@.files.push(file@),
                dirs: match parent_of(file@.src) {
                    Some(d) => self@.dirs.push(d),
                    None => self@.dirs,
                },
                ..self@
            }),
    {
        let mut s = self;
        let ghost before = s@;
        match parent(file.src.as_str()) {
            Some(d) => {
                s.inner.dirs.push(d);
            },
            None => {},
        }
        s.inner.files.push(file);
        assert(s@.files =~= before.files.push(file@));
        assert(s@.dirs =~= (match parent_of(file@.src) {
            Some(d) => before.dirs.push(d),
            None => before.dirs,
        }));
        s
    }

    /// Adds the units in order, recording the directory of each.
    pub fn files(self, files: Vec<CompilationFile>) -> (r: Self)
        ensures
            r@ == (CommandView {
                files: self@.files + file_views(files@),
                dirs: self@.dirs + parent_dirs(file_views(files@)),
                ..self@
            }),
    {
        let mut s = self;
        let ghost start = s@;
        let ghost fv = file_views(files@);
        let mut i: usize = 0;
        proof {
            assert(fv.take(0) =~= Seq::<FileView>::empty());
            assert(s@.files =~= start.files + fv.take(0));
            assert(s@.dirs =~= start.dirs + parent_dirs(fv.take(0)));
        }
        while i < files.len()
            invariant
                i <= files@.len(),
                fv == file_views(files@),
                s@ == (CommandView {
                    files: start.files + fv.take(i as int),
                    dirs: start.dirs + parent_dirs(fv.take(i as int)),
                    ..start
                }),
            decreases files@.len() - i,
        {
            let f = files[i].duplicate();
            s = s.file(f);
            proof {
                assert(fv.take(i + 1).drop_last() =~= fv.take(i as int));
                assert(start.files + fv.take(i + 1) =~= (start.files + fv.take(i as int)).push(fv[i as int]));
                let pd = parent_dirs(fv.take(i as int));
                match parent_of(fv[i as int].src) {
                    Some(d) => {
                        assert(start.dirs + pd.push(d) =~= (start.dirs + pd).push(d));
                    },
                    None => {},
                }
            }
            i = i + 1;
        }
        proof {
            assert(fv.take(files@.len() as int) =~= fv);
        }
        s
    }

    /// Replaces the units; the recorded directories become those of the new
    /// units.
    pub fn set_files(self, files: Vec<CompilationFile>) -> (r: Self)
        ensures
            r@ == (CommandView {
                files: file_views(files@),
                dirs: parent_dirs(file_views(files@)),
                ..self@
            }),
    {
        let mut s = self;
        s.inner.files = Vec::new();
        s.inner.dirs = Vec::new();
        let r = s.files(files);
        assert(Seq::<FileView>::empty() + file_views(files@) =~= file_views(files@));
        assert(Seq::<Seq<char>>::empty() + parent_dirs(file_views(files@)) =~= parent_dirs(
            file_views(files@),
        ));
        assert(file_views(Seq::<CompilationFile>::empty()) =~= Seq::<FileView>::empty());
        assert(views(Seq::<String>::empty()) =~= Seq::<Seq<char>>::empty());
        r
    }

    /// Adds what a recursive walk of a directory found: each directory entered
    /// is recorded for the output tree, each file becomes a unit.
    pub fn dir(self, listing: Vec<DirEntry>) -> (r: Self)
        ensures
            r@ == (CommandView {
                files: self@.files + listed_files(listing@),
                dirs: self@.dirs + listed_dirs(listing@),
                ..self@
            }),
    {
        let mut s = self;
        let ghost start = s@;
        let ghost es = listing@;
        let mut i: usize = 0;
        proof {
            assert(es.take(0) =~= Seq::<DirEntry>::empty());
            assert(s@.files =~= start.files + listed_files(es.take(0)));
            assert(s@.dirs =~= start.dirs + listed_dirs(es.take(0)));
        }
        while i < listing.len()
            invariant
                i <= listing@.len(),
                es == listing@,
                s@ == (CommandView {
                    files: start.files + listed_files(es.take(i as int)),
                    dirs: start.dirs + listed_dirs(es.take(i as int)),
                    ..start
                }),
            decreases listing@.len() - i,
        {
            let ghost pf = listed_files(es.take(i as int));
            let ghost pd = listed_dirs(es.take(i as int));
            proof {
                assert(es.take(i + 1).drop_last() =~= es.take(i as int));
            }
            match &listing[i] {
                DirEntry::Dir(d) => {
                    let nd = normalize(d.as_str());
                    s.inner.dirs.push(nd);
                    assert(start.dirs + pd.push(nd@) =~= (start.dirs + pd).push(nd@));
                    assert(s@.dirs =~= (start.dirs + pd).push(nd@));
                },
                DirEntry::File(f) => {
                    let unit = CompilationFile::new(f.as_str());
                    s.inner.files.push(unit);
                    assert(start.files + pf.push(unit@) =~= (start.files + pf).push(unit@));
                    assert(s@.files =~= (start.files + pf).push(unit@));
                },
            }
            i = i + 1;
        }
        proof {
            assert(es.take(listing@.len() as int) =~= es);
        }
        s
    }

    pub fn include_dir(self, dir: &str) -> (r: Self)
        ensures
            r@ == (CommandView { includes: self@.includes.push(dir@), ..self@ }),
    {
        let mut s = self;
        let ghost before = s@;
        s.inner.includes.push(String::from_str(dir));
        assert(s@.includes =~= before.includes.push(dir@));
        s
    }

    pub fn includes(self, includes: Vec<String>) -> (r: Self)
        ensures
            r@ == (CommandView { includes: self@.includes + views(includes@), ..self@ }),
    {
        let mut s = self;
        let ghost before = s@;
        let mut more = includes;
        s.inner.includes.append(&mut more);
        assert(s@.includes =~= before.includes + views(includes@));
        s
    }

    pub fn set_includes(self, includes: Vec<String>) -> (r: Self)
        ensures
            r@ == (CommandView { includes: views(includes@), ..self@ }),
    {
        let mut s = self;
        s.inner.includes = includes;
        s
    }

    pub fn definition(self, definition: String) -> (r: Self)
        ensures
            r@ == (CommandView { definitions: self@.definitions.push(definition@), ..self@ }),
    {
        let mut s = self;
        let ghost before = s@;
        s.inner.definitions.push(definition);
        assert(s@.definitions =~= before.definitions.push(definition@));
        s
    }

    pub fn definitions(self, definitions: Vec<String>) -> (r: Self)
        ensures
            r@ == (CommandView { definitions: self@.definitions + views(definitions@), ..self@ }),
    {
        let mut s = self;
        let ghost before = s@;
        let mut more = definitions;
        s.inner.definitions.append(&mut more);
        assert(s@.definitions =~= before.definitions + views(definitions@));
        s
    }

    pub fn set_definitions(self, definitions: Vec<String>) -> (r: Self)
        ensures
            r@ == (CommandView { definitions: views(definitions@), ..self@ }),
    {
        let mut s = self;
        s.inner.definitions = definitions;
        s
    }

    pub fn standard(self, std: Std) -> (r: Self)
        ensures
            r@ == (CommandView { std: Some(std), ..self@ }),
    {
        let mut s = self;
        s.inner.std = Some(std);
        s
    }

    pub fn target(self, target: Target) -> (r: Self)
        ensures
            r@ == (CommandView { target: Some(target), ..self@ }),
    {
        let mut s = self;
        s.inner.target = Some(target);
        s
    }
}

/// Modification times of a unit's source and object, as known to the caller:
/// `None` where the file is missing or its time cannot be read.
#[derive(Debug, Clone, Copy, PartialEq, Eq, Structural)]
pub struct FileTimes {
    pub src: Option<i128>,
    pub out: Option<i128>,
}

/// A unit is stale unless both times are known and the object is strictly newer.
pub open spec fn is_stale(t: FileTimes) -> bool {
    match (t.src, t.out) {
        (Some(s), Some(o)) => o <= s,
        _ => true,
    }
}

/// The indices, in order, of the stale units among the first `n`.
pub open spec fn stale_upto(times: Seq<FileTimes>, n: nat) -> Seq<usize>
    decreases n,
{
    if n == 0 {
        Seq::empty()
    } else {
        let pre = stale_upto(times, (n - 1) as nat);
        if is_stale(times[n - 1]) {
            pre.push((n - 1) as usize)
        } else {
            pre
        }
    }
}

pub open spec fn stale_units(times: Seq<FileTimes>) -> Seq<usize> {
    stale_upto(times, times.len())
}

pub open spec fn option_arg(o: Option<Seq<char>>) -> Seq<Seq<char>> {
    match o {
        Some(a) => seq![a],
        None => Seq::empty(),
    }
}

pub open spec fn opt_arg(v: CommandView) -> Option<Seq<char>> {
    match v.optimization_level {
        Some(l) => Some(opt_flag(v.compiler, l)),
        None => None,
    }
}

pub open spec fn debug_arg(v: CommandView) -> Option<Seq<char>> {
    match v.debug {
        Some(d) => debug_flag(v.compiler, d),
        None => None,
    }
}

pub open spec fn std_arg(v: CommandView) -> Option<Seq<char>> {
    match v.std {
        Some(s) => std_flag(v.compiler, s),
        None => None,
    }
}

pub open spec fn target_arg(v: CommandView) -> Option<Seq<char>> {
    match v.target {
        Some(t) => target_flag(v.compiler, t),
        None => None,
    }
}

pub open spec fn include_list(c: Compiler, dirs: Seq<Seq<char>>) -> Seq<Seq<char>>
    decreases dirs.len(),
{
    if dirs.len() == 0 {
        Seq::empty()
    } else {
        include_list(c, dirs.drop_last()) + include_args(c, dirs.last())
    }
}

/// The option tokens of a configuration: optimization, debug, standard,
/// target, include directories and definitions, in that order.
pub open spec fn option_args(v: CommandView) -> Seq<Seq<char>> {
    option_arg(opt_arg(v)) + option_arg(debug_arg(v)) + option_arg(std_arg(v)) + option_arg(
        target_arg(v),
    ) + include_list(v.compiler, v.includes) + v.definitions.map_values(
        |d: Seq<char>| definition_arg(v.compiler, d),
    )
}

/// The arguments the compiler is run with for one unit.
pub open spec fn compile_args(v: CommandView, f: FileView) -> Seq<Seq<char>> {
    let logo: Seq<Seq<char>> = if v.compiler == Compiler::Msvc {
        seq!["/nologo"@]
    } else {
        Seq::empty()
    };
    logo + source_args(v.compiler, f.src, f.out) + option_args(v)
}

/// The options of a configuration that its toolchain cannot express.
pub open spec fn config_warnings(v: CommandView) -> Seq<Warning> {
    let d: Seq<Warning> = if v.debug is Some && debug_arg(v) is None {
        seq![Warning::UnsupportedDebug]
    } else {
        Seq::empty()
    };
    let s: Seq<Warning> = match v.std {
        Some(st) => if std_flag(v.compiler, st) is None {
            seq![Warning::UnsupportedStd(st)]
        } else {
            Seq::empty()
        },
        None => Seq::empty(),
    };
    let t: Seq<Warning> = match v.target {
        Some(tg) => if target_flag(v.compiler, tg) is None {
            seq![Warning::UnsupportedTarget(tg)]
        } else {
            Seq::empty()
        },
        None => Seq::empty(),
    };
    d + s + t
}

fn push_option(v: &mut Vec<String>, o: Option<String>)
    ensures
        views(final(v)@) == views(old(v)@) + option_arg(
            match o {
                Some(s) => Some(s@),
                None => None,
            },
        ),
{
    let ghost before = views(v@);
    match o {
        Some(s) => {
            push_string(v, s);
            assert(before + seq![s@] =~= before.push(s@));
        },
        None => {
            assert(before + Seq::<Seq<char>>::empty() =~= before);
        },
    }
}

fn lit_option(o: Option<&'static str>) -> (r: Option<String>)
    ensures
        r matches Some(s) ==> o matches Some(l) && s@ == l@,
        r is None ==> o is None,
{
    match o {
        Some(l) => Some(String::from_str(l)),
        None => None,
    }
}

impl CompileCommand {
    /// The object paths of all units, in order: what the linker takes.
    pub fn get_link_files(&self) -> (r: Vec<String>)
        ensures
            views(r@) == self@.files.map_values(|f: FileView| f.out),
    {
        let mut r: Vec<String> = Vec::new();
        let mut i: usize = 0;
        while i < self.files.len()
            invariant
                i <= self.files@.len(),
                views(r@) =~= self@.files.take(i as int).map_values(|f: FileView| f.out),
            decreases self.files@.len() - i,
        {
            push_string(&mut r, self.files[i].out.clone());
            assert(self@.files.take(i + 1) =~= self@.files.take(i as int).push(self@.files[i as int]));
            i = i + 1;
        }
        assert(self@.files.take(self.files@.len() as int) =~= self@.files);
        r
    }

    pub fn files(&self) -> (r: &Vec<CompilationFile>)
        ensures
            file_views(r@) == self@.files,
    {
        &self.files
    }

    pub fn working_dir(&self) -> (r: &str)
        ensures
            r@ == self@.working_directory,
    {
        self.working_directory.as_str()
    }

    pub fn out_dir(&self) -> (r: &str)
        ensures
            r@ == self@.out_dir,
    {
        self.out_dir.as_str()
    }

    pub fn host(&self) -> (r: HostOs)
        ensures
            r == self@.host,
    {
        self.host
    }

    /// The driver executable that compiles the units.
    pub fn compiler(&self) -> (r: &'static str)
        ensures
            r@ == driver_name(self@.compiler, self@.lang),
    {
        self.compiler.as_str(self.lang)
    }

    fn src_file(&self, file: &CompilationFile) -> (r: Vec<String>)
        ensures
            views(r@) == source_args(self@.compiler, file@.src, file@.out),
    {
        let mut r: Vec<String> = Vec::new();
        proof {
            reveal_strlit("-c");
            reveal_strlit("-o");
            reveal_strlit("/c");
            reveal_strlit("/Fo");
        }
        match self.compiler {
            Compiler::Clang | Compiler::Gcc => {
                push_string(&mut r, String::from_str("-c"));
                push_string(&mut r, file.src.clone());
                push_string(&mut r, String::from_str("-o"));
                push_string(&mut r, file.out.clone());
            },
            Compiler::Msvc => {
                push_string(&mut r, String::from_str("/c"));
                push_string(&mut r, file.src.clone());
                push_string(&mut r, prefixed("/Fo", file.out.as_str()));
            },
        }
        assert(views(r@) =~= source_args(self@.compiler, file@.src, file@.out));
        r
    }

    fn opt_level(&self) -> (r: Option<&'static str>)
        ensures
            r matches Some(l) ==> opt_arg(self@) == Some(l@),
            r is None ==> opt_arg(self@) is None,
    {
        match self.optimization_level {
            Some(level) => match self.compiler {
                Compiler::Clang | Compiler::Gcc => match level {
                    OptimizationLevel::O3 => Some("-O3"),
                    OptimizationLevel::O2 => Some("-O2"),
                    OptimizationLevel::O1 => Some("-O1"),
                    OptimizationLevel::O0 => Some("-O0"),
                    OptimizationLevel::Fast => Some("-Ofast"),
                    OptimizationLevel::Small => Some("-Os"),
                },
                Compiler::Msvc => match level {
                    OptimizationLevel::O3 => Some("/O2"),
                    OptimizationLevel::O2 => Some("/O2"),
                    OptimizationLevel::O1 => Some("/O1"),
                    OptimizationLevel::O0 => Some("/Od"),
                    OptimizationLevel::Fast => Some("/Ot"),
                    OptimizationLevel::Small => Some("/Os"),
                },
            },
            None => None,
        }
    }

    fn debuger(&self) -> (r: Option<String>)
        ensures
            r matches Some(d) ==> debug_arg(self@) == Some(d@),
            r is None ==> debug_arg(self@) is None,
    {
        match &self.debug {
            Some(format) => {
                if self.compiler == Compiler::Msvc {
                    None
                } else {
                    Some(prefixed("-g", format.as_str()))
                }
            },
            None => None,
        }
    }

    fn lang_std(&self) -> (r: Option<&'static str>)
        ensures
            r matches Some(l) ==> std_arg(self@) == Some(l@),
            r is None ==> std_arg(self@) is None,
    {
        match self.std {
            Some(std) => match (self.compiler, std) {
                (Compiler::Msvc, Std::C99) => None,
                (Compiler::Msvc, Std::C11) => Some("/std:c11"),
                (_, Std::C99) => Some("-std=c99"),
                (_, Std::C11) => Some("-std=c11"),
            },
            None => None,
        }
    }

    fn compilation_target(&self) -> (r: Option<&'static str>)
        ensures
            r matches Some(l) ==> target_arg(self@) == Some(l@),
            r is None ==> target_arg(self@) is None,
    {
        match self.target {
            Some(Target::X86_64) => if self.compiler == Compiler::Clang {
                Some("--target=x86-64")
            } else {
                None
            },
            None => None,
        }
    }

    fn include_flags(&self, dir: &str) -> (r: Vec<String>)
        ensures
            views(r@) == include_args(self@.compiler, dir@),
    {
        let mut r: Vec<String> = Vec::new();
        proof {
            reveal_strlit("-I");
            reveal_strlit("/I");
        }
        if self.compiler == Compiler::Msvc {
            push_string(&mut r, String::from_str("/I"));
        } else {
            push_string(&mut r, String::from_str("-I"));
        }
        push_string(&mut r, String::from_str(dir));
        assert(views(r@) =~= include_args(self@.compiler, dir@));
        r
    }

    fn definition(&self, def: &str) -> (r: String)
        ensures
            r@ == definition_arg(self@.compiler, def@),
    {
        if self.compiler == Compiler::Msvc {
            prefixed("/D", def)
        } else {
            prefixed("-D", def)
        }
    }

    /// The option tokens of this configuration (see `option_args`).
    pub fn option_args(&self) -> (r: Vec<String>)
        ensures
            views(r@) == option_args(self@),
    {
        let mut r: Vec<String> = Vec::new();
        push_option(&mut r, lit_option(self.opt_level()));
        push_option(&mut r, self.debuger());
        push_option(&mut r, lit_option(self.lang_std()));
        push_option(&mut r, lit_option(self.compilation_target()));
        let ghost head = views(r@);
        assert(head =~= Seq::<Seq<char>>::empty() + option_arg(opt_arg(self@)) + option_arg(
            debug_arg(self@),
        ) + option_arg(std_arg(self@)) + option_arg(target_arg(self@)));
        let mut i: usize = 0;
        while i < self.includes.len()
            invariant
                i <= self.includes@.len(),
                views(r@) =~= head + include_list(self@.compiler, self@.includes.take(i as int)),
            decreases self.includes@.len() - i,
        {
            let ghost before = views(r@);
            let mut part = self.include_flags(self.includes[i].as_str());
            r.append(&mut part);
            proof {
                let inc = self@.includes;
                assert(inc.take(i + 1).drop_last() =~= inc.take(i as int));
                assert(inc.take(i + 1).last() == self.includes@[i as int]@);
                assert(views(r@) =~= before + include_args(self@.compiler, inc[i as int]));
            }
            i = i + 1;
        }
        assert(self@.includes.take(self.includes@.len() as int) =~= self@.includes);
        let ghost mid = views(r@);
        let mut j: usize = 0;
        while j < self.definitions.len()
            invariant
                j <= self.definitions@.len(),
                views(r@) =~= mid + self@.definitions.take(j as int).map_values(
                    |d: Seq<char>| definition_arg(self@.compiler, d),
                ),
            decreases self.definitions@.len() - j,
        {
            let d = self.definition(self.definitions[j].as_str());
            push_string(&mut r, d);
            assert(self@.definitions.take(j + 1) =~= self@.definitions.take(j as int).push(
                self@.definitions[j as int],
            ));
            j = j + 1;
        }
        assert(self@.definitions.take(self.definitions@.len() as int) =~= self@.definitions);
        r
    }

    /// The arguments the compiler is run with for `file`.
    pub fn build_command_for_file(&self, file: &CompilationFile) -> (r: Vec<String>)
        ensures
            views(r@) == compile_args(self@, file@),
    {
        let mut r: Vec<String> = Vec::new();
        proof {
            reveal_strlit("/nologo");
        }
        if self.compiler == Compiler::Msvc {
            push_string(&mut r, String::from_str("/nologo"));
        }
        let ghost logo = views(r@);
        let mut src = self.src_file(file);
        r.append(&mut src);
        let ghost mid = views(r@);
        assert(mid =~= logo + source_args(self@.compiler, file@.src, file@.out));
        let mut opts = self.option_args();
        r.append(&mut opts);
        assert(views(r@) =~= mid + option_args(self@));
        assert(views(r@) =~= compile_args(self@, file@));
        r
    }

    /// The option tokens written as `, "<token>"` each, as they follow the
    /// source and object in a database record.
    pub fn args(&self) -> (r: String)
        ensures
            r@ == arg_tail(option_args(self@)),
    {
        render_args(&self.option_args())
    }

    /// The compile-command database of this configuration, with the working
    /// directory as each record's directory.
    pub fn gen_compiler_commands_json(&self) -> (r: String)
        ensures
            r@ == database(self@.working_directory, self@),
    {
        ConfigGenerator::new(self, self.working_directory.as_str()).generate()
    }

    /// The requested options that the toolchain cannot express, and which are
    /// therefore left off every command line.
    pub fn warnings(&self) -> (r: Vec<Warning>)
        ensures
            r@ == config_warnings(self@),
    {
        let mut r: Vec<Warning> = Vec::new();
        if self.debug.is_some() && self.compiler == Compiler::Msvc {
            r.push(Warning::UnsupportedDebug);
        }
        match self.std {
            Some(st) => if self.lang_std().is_none() {
                r.push(Warning::UnsupportedStd(st));
            },
            None => {},
        }
        match self.target {
            Some(tg) => if self.compilation_target().is_none() {
                r.push(Warning::UnsupportedTarget(tg));
            },
            None => {},
        }
        assert(r@ =~= config_warnings(self@));
        r
    }

    /// The units that must be recompiled, by index and in order, given the
    /// modification times of each unit's source and object.
    pub fn get_modified_files(&self, times: &Vec<FileTimes>) -> (r: Vec<usize>)
        requires
            times@.len() == self@.files.len(),
        ensures
            r@ == stale_units(times@),
    {
        let mut r: Vec<usize> = Vec::new();
        let mut i: usize = 0;
        while i < times.len()
            invariant
                i <= times@.len(),
                r@ == stale_upto(times@, i as nat),
            decreases times@.len() - i,
        {
            let t = times[i];
            let stale = match (t.src, t.out) {
                (Some(s), Some(o)) => o <= s,
                _ => true,
            };
            if stale {
                r.push(i);
            }
            i = i + 1;
        }
        r
    }

    /// The directories to create before compiling: `<out_dir>/obj`, then the
    /// mirror of each directory that contributed units (without its root or
    /// leading `..` parts, as object paths are placed).
    pub fn output_dirs(&self) -> (r: Vec<String>)
        ensures
            views(r@) == seq![obj_dir(self@.out_dir)] + self@.dirs.map_values(
                |d: Seq<char>| joined(obj_dir(self@.out_dir), relative_part(d)),
            ),
    {
        let obj = join(self.out_dir.as_str(), "obj");
        proof {
            reveal_strlit("obj");
        }
        let mut r: Vec<String> = Vec::new();
        push_string(&mut r, obj.clone());
        let mut i: usize = 0;
        while i < self.dirs.len()
            invariant
                i <= self.dirs@.len(),
                obj@ == obj_dir(self@.out_dir),
                views(r@) =~= seq![obj@] + self@.dirs.take(i as int).map_values(
                    |d: Seq<char>| joined(obj_dir(self@.out_dir), relative_part(d)),
                ),
            decreases self.dirs@.len() - i,
        {
            let rel = relative(self.dirs[i].as_str());
            push_string(&mut r, join(obj.as_str(), rel.as_str()));
            assert(self@.dirs.take(i + 1) =~= self@.dirs.take(i as int).push(self@.dirs[i as int]));
            i = i + 1;
        }
        assert(self@.dirs.take(self.dirs@.len() as int) =~= self@.dirs);
        r
    }
}

proof fn lemma_stale_upto_contains(times: Seq<FileTimes>, n: nat, i: usize)
    requires
        n <= times.len(),
        times.len() <= usize::MAX,
    ensures
        stale_upto(times, n).contains(i) == ((i as int) < n && is_stale(times[i as int])),
    decreases n,
{
    if n > 0 {
        lemma_stale_upto_contains(times, (n - 1) as nat, i);
        let pre = stale_upto(times, (n - 1) as nat);
        if is_stale(times[n - 1]) {
            let post = pre.push((n - 1) as usize);
            if post.contains(i) {
                let k = choose|k: int| 0 <= k < post.len() && post[k] == i;
                if k < pre.len() {
                    assert(pre[k] == i);
                }
            }
            if pre.contains(i) {
                let k = choose|k: int| 0 <= k < pre.len() && pre[k] == i;
                assert(post[k] == i);
            }
            if i as int == n - 1 {
                assert(post[pre.len() as int] == i);
            }
        }
    }
}

/// Once every object is strictly newer than its source (as after a build that
/// succeeded, with nothing touched since), no unit is stale.
pub proof fn lemma_built_is_fresh(times: Seq<FileTimes>)
    requires
        times.len() <= usize::MAX,
        forall|i: int|
            0 <= i < times.len() ==> {
                &&& (#[trigger] times[i]).src matches Some(s)
                &&& times[i].out matches Some(o)
                &&& s < o
            },
    ensures
        stale_units(times) == Seq::<usize>::empty(),
{
    let st = stale_units(times);
    if st.len() > 0 {
        lemma_stale_upto_contains(times, times.len(), st[0]);
        assert(st.contains(st[0]));
        assert(false);
    }
    assert(st =~= Seq::<usize>::empty());
}

/// Making one unit's source newer than its object marks that unit stale and
/// leaves every other unit as it was.
pub proof fn lemma_touched_source_is_stale(times: Seq<FileTimes>, k: usize, src: i128)
    requires
        times.len() <= usize::MAX,
        (k as int) < times.len(),
        times[k as int].out matches Some(o) && o < src,
    ensures
        stale_units(times.update(k as int, FileTimes { src: Some(src), ..times[k as int] })).contains(
            k,
        ),
        forall|i: usize|
            i != k ==> stale_units(
                times.update(k as int, FileTimes { src: Some(src), ..times[k as int] }),
            ).contains(i) == stale_units(times).contains(i),
{
    let touched = times.update(k as int, FileTimes { src: Some(src), ..times[k as int] });
    lemma_stale_upto_contains(touched, touched.len(), k);
    assert forall|i: usize| i != k implies stale_units(touched).contains(i) == stale_units(
        times,
    ).contains(i) by {
        lemma_stale_upto_contains(touched, touched.len(), i);
        lemma_stale_upto_contains(times, times.len(), i);
    }
}

/// Equal source and object times count as stale.
pub proof fn lemma_equal_times_are_stale(t: FileTimes)
    requires
        t.src is Some,
        t.src == t.out,
    ensures
        is_stale(t),
{
}

/// What came of running the compiler on one unit.
#[derive(Debug, Clone, Copy, PartialEq, Eq, Structural)]
pub enum Outcome {
    /// The compiler ran and exited successfully.
    Succeeded,
    /// The compiler ran and exited with a failure status.
    Failed,
    /// The compiler could not be started.
    SpawnError,
}

/// What a compile batch does next.
#[derive(Debug, Clone, Copy, PartialEq, Eq, Structural)]
pub enum BatchStep {
    /// Compile the unit with this index.
    Compile(usize),
    /// The batch is over, with this status.
    Finished(Status),
}

/// The decisions of a compile batch: units are compiled one at a time in
/// order; a failed compilation aborts the rest, one that could not be started
/// does not.
#[derive(Debug, Clone)]
pub struct CompileBatch {
    pending: Vec<usize>,
    next: usize,
    aborted: bool,
}

pub struct BatchView {
    pub pending: Seq<usize>,
    pub next: nat,
    pub aborted: bool,
}

impl View for CompileBatch {
    type V = BatchView;

    closed spec fn view(&self) -> BatchView {
        BatchView { pending: self.pending@, next: self.next as nat, aborted: self.aborted }
    }
}

pub open spec fn batch_start(pending: Seq<usize>) -> BatchView {
    BatchView { pending, next: 0, aborted: false }
}

pub open spec fn batch_step(b: BatchView) -> BatchStep {
    if b.aborted {
        BatchStep::Finished(Status::Aborted)
    } else if b.next < b.pending.len() {
        BatchStep::Compile(b.pending[b.next as int])
    } else {
        BatchStep::Finished(Status::Success)
    }
}

pub open spec fn after_outcome(b: BatchView, o: Outcome) -> BatchView {
    if o == Outcome::Failed {
        BatchView { aborted: true, ..b }
    } else {
        BatchView { next: b.next + 1, ..b }
    }
}

/// The batch after the outcomes of its first compilations, in order.
pub open spec fn after_outcomes(b: BatchView, os: Seq<Outcome>) -> BatchView
    decreases os.len(),
{
    if os.len() == 0 {
        b
    } else {
        after_outcome(after_outcomes(b, os.drop_last()), os.last())
    }
}

impl CompileBatch {
    /// A batch over the stale units, by index, in the order they are compiled.
    pub fn new(pending: Vec<usize>) -> (r: CompileBatch)
        ensures
            r@ == batch_start(pending@),
    {
        CompileBatch { pending, next: 0, aborted: false }
    }

    pub fn step(&self) -> (r: BatchStep)
        ensures
            r == batch_step(self@),
    {
        if self.aborted {
            BatchStep::Finished(Status::Aborted)
        } else if self.next < self.pending.len() {
            BatchStep::Compile(self.pending[self.next])
        } else {
            BatchStep::Finished(Status::Success)
        }
    }

    /// Takes the outcome of the compilation that `step` asked for and says
    /// what comes next.
    pub fn record(&mut self, outcome: Outcome) -> (r: BatchStep)
        requires
            batch_step(old(self)@) is Compile,
        ensures
            final(self)@ == after_outcome(old(self)@, outcome),
            r == batch_step(final(self)@),
    {
        match outcome {
            Outcome::Failed => {
                self.aborted = true;
            },
            Outcome::Succeeded | Outcome::SpawnError => {
                if self.next < self.pending.len() {
                    self.next = self.next + 1;
                }
            },
        }
        self.step()
    }
}

/// In a batch whose first failure comes at the last of `outcomes`, each unit
/// up to the failing one was handed out in order, the batch ends aborted, and
/// no later unit is handed out.
pub proof fn lemma_first_failure_aborts(pending: Seq<usize>, outcomes: Seq<Outcome>)
    requires
        1 <= outcomes.len() <= pending.len(),
        outcomes.last() == Outcome::Failed,
        forall|i: int| 0 <= i < outcomes.len() - 1 ==> outcomes[i] != Outcome::Failed,
    ensures
        forall|i: int|
            0 <= i < outcomes.len() ==> batch_step(
                #[trigger] after_outcomes(batch_start(pending), outcomes.take(i)),
            ) == BatchStep::Compile(pending[i]),
        after_outcomes(batch_start(pending), outcomes).aborted,
        after_outcomes(batch_start(pending), outcomes).next == outcomes.len() - 1,
        batch_step(after_outcomes(batch_start(pending), outcomes)) == BatchStep::Finished(
            Status::Aborted,
        ),
{
    lemma_no_failure_advances(pending, outcomes);
    let n = outcomes.len() - 1;
    assert(outcomes.take(n as int) =~= outcomes.drop_last());
    assert(after_outcomes(batch_start(pending), outcomes.take(n as int)).next == n);
}

proof fn lemma_no_failure_advances(pending: Seq<usize>, outcomes: Seq<Outcome>)
    requires
        outcomes.len() <= pending.len(),
        forall|i: int| 0 <= i < outcomes.len() - 1 ==> outcomes[i] != Outcome::Failed,
    ensures
        forall|i: int|
            0 <= i < outcomes.len() ==> {
                &&& (#[trigger] after_outcomes(batch_start(pending), outcomes.take(i))).next == i
                &&& !after_outcomes(batch_start(pending), outcomes.take(i)).aborted
                &&& after_outcomes(batch_start(pending), outcomes.take(i)).pending == pending
            },
    decreases outcomes.len(),
{
    if outcomes.len() > 0 {
        let pre = outcomes.drop_last();
        lemma_no_failure_advances(pending, pre);
        assert forall|i: int| 0 <= i < outcomes.len() implies {
            &&& (#[trigger] after_outcomes(batch_start(pending), outcomes.take(i))).next == i
            &&& !after_outcomes(batch_start(pending), outcomes.take(i)).aborted
            &&& after_outcomes(batch_start(pending), outcomes.take(i)).pending == pending
        } by {
            if i < outcomes.len() - 1 {
                assert(outcomes.take(i) =~= pre.take(i));
            } else {
                if i > 0 {
                    assert(outcomes.take(i).drop_last() =~= pre.take(i - 1));
                    assert(outcomes.take(i).last() == outcomes[i - 1]);
                    assert(after_outcomes(batch_start(pending), pre.take(i - 1)).next == i - 1);
                } else {
                    assert(outcomes.take(0) =~= Seq::<Outcome>::empty());
                }
            }
        }
    }
}

} // verus!
