use build_cmd::compiler::{
    BatchStep, CompilationFile, CompileBatch, CompileCommand, Compiler, DirEntry, FileTimes,
    HostOs, Lang, OptimizationLevel, Outcome, Status, Std, Target, Warning,
};
use build_cmd::generator::{quote, ConfigGenerator};
use build_cmd::linker::{BinType, Linker, LinkerCommand};
use build_cmd::path::{join, normalize, parent, relative, set_extension, Normalize};

fn strings(v: &[&str]) -> Vec<String> {
    v.iter().map(|s| s.to_string()).collect()
}

#[test]
fn test() {
    let command = CompileCommand::builder(HostOs::Linux)
        .file(CompilationFile::new("test.c"))
        .build();
    assert_eq!(command.files()[0].src(), "test.c");
    assert_eq!(command.files()[0].out(), "./obj/test.o");
}

#[test]
fn object_path_gcc_and_msvc() {
    let gcc = CompileCommand::builder(HostOs::Linux)
        .compiler(Compiler::Gcc)
        .out_dir("out")
        .file(CompilationFile::new("a/b/c.c"))
        .build();
    assert_eq!(gcc.files()[0].out(), "out/obj/a/b/c.o");
    let msvc = CompileCommand::builder(HostOs::Linux)
        .compiler(Compiler::Msvc)
        .out_dir("out")
        .file(CompilationFile::new("a/b/c.c"))
        .build();
    assert_eq!(msvc.files()[0].out(), "out/obj/a/b/c.obj");
}

#[test]
fn new_file_normalizes_source() {
    let f = CompilationFile::new("./x/../y/z.cpp");
    assert_eq!(f.src(), "y/z.cpp");
    assert_eq!(f.out(), "y/z.o");
}

#[test]
fn normalize_cases() {
    assert_eq!(normalize("a/./b/../c"), "a/c");
    assert_eq!(normalize("../a/b"), "../a/b");
    assert_eq!(normalize("a/.."), ".");
    assert_eq!(normalize(""), ".");
    assert_eq!(normalize("/.."), "/");
    assert_eq!(normalize("/a/../b"), "/b");
    assert_eq!(normalize("a//b/"), "a/b");
    assert_eq!(normalize("../../x/.."), "../..");
    assert_eq!("p/q/../r".to_string().normalize(), "p/r");
}

#[test]
fn join_cases() {
    assert_eq!(join("out", "obj"), "out/obj");
    assert_eq!(join("./", "obj"), "./obj");
    assert_eq!(join("", "x"), "x");
    assert_eq!(join("a", "/abs"), "/abs");
}

#[test]
fn set_extension_cases() {
    assert_eq!(set_extension("a/b.c", "o"), "a/b.o");
    assert_eq!(set_extension("a/b", "o"), "a/b.o");
    assert_eq!(set_extension("a.tar.gz", "x"), "a.tar.x");
    assert_eq!(set_extension(".bashrc", "o"), ".bashrc.o");
    assert_eq!(set_extension("a.exe", ""), "a");
    assert_eq!(set_extension("a/..", "o"), "a/..");
}

#[test]
fn parent_cases() {
    assert_eq!(parent("a/b/c.c"), Some("a/b".to_string()));
    assert_eq!(parent("c.c"), Some(String::new()));
    assert_eq!(parent("/c.c"), Some("/".to_string()));
    assert_eq!(parent("/"), None);
    assert_eq!(parent(""), None);
}

fn full_options(compiler: Compiler) -> CompileCommand {
    CompileCommand::builder(HostOs::Linux)
        .compiler(compiler)
        .out_dir("out")
        .opt_level(OptimizationLevel::Fast)
        .debug("dwarf".to_string())
        .standard(Std::C11)
        .target(Target::X86_64)
        .include_dir("inc/./x")
        .definition("FOO".to_string())
        .file(CompilationFile::new("src/main.c"))
        .build()
}

#[test]
fn gcc_command_line() {
    let c = full_options(Compiler::Gcc);
    assert_eq!(c.compiler(), "gcc");
    let args = c.build_command_for_file(&c.files()[0]);
    assert_eq!(
        args,
        strings(&[
            "-c",
            "src/main.c",
            "-o",
            "out/obj/src/main.o",
            "-Ofast",
            "-gdwarf",
            "-std=c11",
            "-I",
            "inc/x",
            "-DFOO"
        ])
    );
    assert_eq!(c.warnings(), vec![Warning::UnsupportedTarget(Target::X86_64)]);
}

#[test]
fn clang_command_line_has_target() {
    let c = full_options(Compiler::Clang);
    let args = c.build_command_for_file(&c.files()[0]);
    assert!(args.contains(&"--target=x86-64".to_string()));
    assert!(c.warnings().is_empty());
}

#[test]
fn msvc_command_line() {
    let c = CompileCommand::builder(HostOs::Windows)
        .out_dir("out")
        .opt_level(OptimizationLevel::O3)
        .debug("dwarf".to_string())
        .standard(Std::C99)
        .include_dir("inc")
        .definition("FOO".to_string())
        .file(CompilationFile::new("src/main.c"))
        .build();
    assert_eq!(c.compiler(), "cl");
    let args = c.build_command_for_file(&c.files()[0]);
    assert_eq!(
        args,
        strings(&["/nologo", "/c", "src/main.c", "/Foout/obj/src/main.obj", "/O2", "/I", "inc", "/DFOO"])
    );
    assert_eq!(
        c.warnings(),
        vec![Warning::UnsupportedDebug, Warning::UnsupportedStd(Std::C99)]
    );
}

#[test]
fn optimization_table() {
    let cases = [
        (OptimizationLevel::O3, "-O3", "/O2"),
        (OptimizationLevel::O2, "-O2", "/O2"),
        (OptimizationLevel::O1, "-O1", "/O1"),
        (OptimizationLevel::O0, "-O0", "/Od"),
        (OptimizationLevel::Fast, "-Ofast", "/Ot"),
        (OptimizationLevel::Small, "-Os", "/Os"),
    ];
    for (level, gnu, msvc) in cases {
        let g = CompileCommand::builder(HostOs::Linux).opt_level(level).build();
        assert_eq!(g.option_args(), strings(&[gnu]));
        let m = CompileCommand::builder(HostOs::Linux)
            .compiler(Compiler::Msvc)
            .opt_level(level)
            .build();
        assert_eq!(m.option_args(), strings(&[msvc]));
    }
}

#[test]
fn msvc_c11_standard() {
    let m = CompileCommand::builder(HostOs::Windows).standard(Std::C11).build();
    assert_eq!(m.option_args(), strings(&["/std:c11"]));
    assert!(m.warnings().is_empty());
}

#[test]
fn driver_names() {
    assert_eq!(Compiler::Gcc.as_str(Lang::Cpp), "g++");
    assert_eq!(Compiler::Clang.as_str(Lang::C), "clang");
    assert_eq!(Compiler::Clang.as_str(Lang::Cpp), "clang++");
    assert_eq!(Compiler::Msvc.as_str(Lang::Cpp), "cl");
    let c = CompileCommand::builder(HostOs::MacOs).kind(Lang::Cpp).build();
    assert_eq!(c.compiler(), "clang++");
}

#[test]
fn includes_and_definitions_keep_order() {
    let c = CompileCommand::builder(HostOs::Linux)
        .include_dir("b")
        .includes(strings(&["a", "b"]))
        .definitions(strings(&["X", "Y=1"]))
        .build();
    assert_eq!(c.option_args(), strings(&["-I", "b", "-I", "a", "-I", "b", "-DX", "-DY=1"]));
    let d = CompileCommand::builder(HostOs::Linux)
        .includes(strings(&["a"]))
        .set_includes(strings(&["z"]))
        .definition("A".to_string())
        .set_definitions(strings(&["B"]))
        .build();
    assert_eq!(d.option_args(), strings(&["-I", "z", "-DB"]));
}

fn three_units() -> CompileCommand {
    CompileCommand::builder(HostOs::Linux)
        .files(vec![
            CompilationFile::new("a.c"),
            CompilationFile::new("b.c"),
            CompilationFile::new("c.c"),
        ])
        .build()
}

fn fresh(src: i128, out: i128) -> FileTimes {
    FileTimes { src: Some(src), out: Some(out) }
}

#[test]
fn nothing_stale_after_build() {
    let c = three_units();
    let times = vec![fresh(1, 2), fresh(5, 9), fresh(3, 4)];
    assert!(c.get_modified_files(&times).is_empty());
}

#[test]
fn touched_source_marks_only_its_unit() {
    let c = three_units();
    let before = vec![fresh(1, 2), fresh(5, 9), fresh(3, 4)];
    assert!(c.get_modified_files(&before).is_empty());
    let after = vec![fresh(1, 2), fresh(10, 9), fresh(3, 4)];
    assert_eq!(c.get_modified_files(&after), vec![1]);
}

#[test]
fn equal_times_are_stale() {
    let c = three_units();
    let times = vec![fresh(7, 7), fresh(1, 2), fresh(1, 2)];
    assert_eq!(c.get_modified_files(&times), vec![0]);
}

#[test]
fn missing_or_unreadable_is_stale() {
    let c = three_units();
    let times = vec![
        FileTimes { src: Some(1), out: None },
        FileTimes { src: None, out: Some(3) },
        fresh(1, 2),
    ];
    assert_eq!(c.get_modified_files(&times), vec![0, 1]);
}

#[test]
fn batch_aborts_on_second_failure() {
    let mut batch = CompileBatch::new(vec![0, 1, 2]);
    assert_eq!(batch.step(), BatchStep::Compile(0));
    assert_eq!(batch.record(Outcome::Succeeded), BatchStep::Compile(1));
    assert_eq!(batch.record(Outcome::Failed), BatchStep::Finished(Status::Aborted));
    assert_eq!(batch.step(), BatchStep::Finished(Status::Aborted));
}

#[test]
fn batch_continues_after_spawn_error() {
    let mut batch = CompileBatch::new(vec![4, 7]);
    assert_eq!(batch.step(), BatchStep::Compile(4));
    assert_eq!(batch.record(Outcome::SpawnError), BatchStep::Compile(7));
    assert_eq!(batch.record(Outcome::Succeeded), BatchStep::Finished(Status::Success));
    let empty = CompileBatch::new(Vec::new());
    assert_eq!(empty.step(), BatchStep::Finished(Status::Success));
}

#[test]
fn directory_listing_and_output_dirs() {
    let c = CompileCommand::builder(HostOs::Linux)
        .out_dir("out")
        .dir(vec![
            DirEntry::Dir("src".to_string()),
            DirEntry::File("src/a.c".to_string()),
            DirEntry::Dir("src/sub".to_string()),
            DirEntry::File("src/sub/b.c".to_string()),
        ])
        .build();
    let outs: Vec<&str> = c.files().iter().map(|f| f.out()).collect();
    assert_eq!(outs, vec!["out/obj/src/a.o", "out/obj/src/sub/b.o"]);
    assert_eq!(c.output_dirs(), strings(&["out/obj", "out/obj/src", "out/obj/src/sub"]));
    assert_eq!(c.get_link_files(), strings(&["out/obj/src/a.o", "out/obj/src/sub/b.o"]));
}

#[test]
fn file_records_parent_dir() {
    let c = CompileCommand::builder(HostOs::Linux)
        .file(CompilationFile::new("x/y.c"))
        .set_files(vec![CompilationFile::new("q/r.c")])
        .build();
    assert_eq!(c.files().len(), 1);
    assert_eq!(c.files()[0].out(), "./obj/q/r.o");
    assert_eq!(c.output_dirs(), strings(&["./obj", "./obj/q"]));
}

#[test]
fn quote_escapes() {
    assert_eq!(quote("a\"b\\c"), "\"a\\\"b\\\\c\"");
    assert_eq!(quote("x\ny"), "\"x\\ny\"");
    assert_eq!(quote(""), "\"\"");
}

#[test]
fn compile_commands_database() {
    let c = CompileCommand::builder(HostOs::Linux)
        .working_dir("/w")
        .definition("X".to_string())
        .file(CompilationFile::new("a.c"))
        .file(CompilationFile::new("b.c"))
        .build();
    let expected = "[\n{\"directory\": \"/w\",\"file\": \"a.c\",\"output\": \"./obj/a.o\",\"arguments\": [\"gcc\", \"-c\", \"a.c\", \"-o\", \"./obj/a.o\", \"-DX\"]}, {\"directory\": \"/w\",\"file\": \"b.c\",\"output\": \"./obj/b.o\",\"arguments\": [\"gcc\", \"-c\", \"b.c\", \"-o\", \"./obj/b.o\", \"-DX\"]}\n]";
    assert_eq!(c.gen_compiler_commands_json(), expected);
    assert_eq!(ConfigGenerator::new(&c, "/w").generate(), expected);
    assert_eq!(c.args(), ", \"-DX\"");
}

#[test]
fn empty_database() {
    let c = CompileCommand::builder(HostOs::Linux).build();
    assert_eq!(ConfigGenerator::new(&c, "r").generate(), "[\n\n]");
}

fn two_objects(host: HostOs) -> CompileCommand {
    CompileCommand::builder(host)
        .out_dir("out")
        .file(CompilationFile::new("a.c"))
        .file(CompilationFile::new("b.c"))
        .build()
}

#[test]
fn clang_shared_library_link() {
    let c = two_objects(HostOs::Linux);
    let l = LinkerCommand::builder(&c)
        .name("app")
        .linker(Linker::Clang)
        .bin_type(BinType::DynamicLib)
        .link_dir("libs")
        .link("m")
        .flag("-v")
        .link_sys_deafult(true)
        .build();
    assert_eq!(l.linker(), "clang");
    assert_eq!(l.out_file(), "out/app.so");
    assert_eq!(
        l.build_command(),
        strings(&["-shared", "-o", "out/app.so", "-L", "libs", "out/obj/a.o", "out/obj/b.o", "-l", "m", "-v"])
    );
}

#[test]
fn default_link_on_linux_and_windows() {
    let c = two_objects(HostOs::Linux);
    let l = LinkerCommand::builder(&c).build();
    assert_eq!(l.linker(), "ld");
    assert_eq!(l.out_file(), "out/a");
    assert_eq!(l.build_command(), strings(&["-o", "out/a", "out/obj/a.o", "out/obj/b.o"]));

    let w = two_objects(HostOs::Windows);
    let lw = LinkerCommand::builder(&w)
        .link_dirs(strings(&["lib"]))
        .links(strings(&["./k32.lib"]))
        .build();
    assert_eq!(lw.linker(), "link.exe");
    assert_eq!(lw.out_file(), "out/a.exe");
    assert_eq!(
        lw.build_command(),
        strings(&["/nologo", "/OUT:out/a.exe", "/LIBPATH:lib", "out/obj/a.obj", "out/obj/b.obj", "k32.lib"])
    );
}

#[test]
fn static_library_uses_archiver() {
    let c = two_objects(HostOs::MacOs);
    let l = LinkerCommand::builder(&c)
        .linker(Linker::Clang)
        .bin_type(BinType::StaticLib)
        .name("core")
        .build();
    assert_eq!(l.linker(), "llvm-ar");
    assert_eq!(l.out_file(), "out/core.a");
    let w = two_objects(HostOs::Windows);
    let lw = LinkerCommand::builder(&w).bin_type(BinType::StaticLib).name("core").build();
    assert_eq!(lw.linker(), "lib.exe");
    assert_eq!(lw.out_file(), "out/core.lib");
    let d = LinkerCommand::builder(&w).bin_type(BinType::DynamicLib).name("core").build();
    assert_eq!(d.out_file(), "out/core.dll");
    assert_eq!(d.build_command()[0], "/DLL");
}

#[test]
fn relink_trigger() {
    let c = two_objects(HostOs::Linux);
    let l = LinkerCommand::builder(&c).build();
    assert!(!l.should_rerun(Some(10), &vec![Some(5), Some(9)]));
    assert!(l.should_rerun(Some(10), &vec![Some(5), Some(10)]));
    assert!(l.should_rerun(Some(10), &vec![Some(11), Some(1)]));
    assert!(l.should_rerun(None, &vec![Some(1), Some(1)]));
    assert!(l.should_rerun(Some(10), &vec![None, Some(1)]));
}

#[test]
fn link_flags_replace_and_extend() {
    let c = two_objects(HostOs::Linux);
    let l = LinkerCommand::builder(&c)
        .flags(strings(&["-a"]))
        .set_flags(strings(&["-b"]))
        .flag("-c")
        .set_links(strings(&["x/../y"]))
        .set_link_dirs(strings(&["d"]))
        .build();
    assert_eq!(
        l.build_command(),
        strings(&["-o", "out/a", "-L", "d", "out/obj/a.o", "out/obj/b.o", "-l", "y", "-b", "-c"])
    );
}

#[test]
fn host_defaults() {
    assert_eq!(Compiler::sys_default(HostOs::Windows), Compiler::Msvc);
    assert_eq!(Compiler::sys_default(HostOs::MacOs), Compiler::Clang);
    assert_eq!(Compiler::sys_default(HostOs::Linux), Compiler::Gcc);
    assert_eq!(Linker::sys_default(HostOs::Windows), Linker::Link);
    assert_eq!(Linker::sys_default(HostOs::MacOs), Linker::LLVM_LD);
    assert_eq!(Linker::sys_default(HostOs::Linux), Linker::Ld);
}

#[test]
fn finalizing_finalized_units_keeps_paths() {
    let c = CompileCommand::builder(HostOs::Linux)
        .out_dir("out")
        .file(CompilationFile::new("a.c"))
        .build();
    assert_eq!(c.files()[0].out(), "out/obj/a.o");
    let again = CompileCommand::builder(HostOs::Linux)
        .out_dir("out")
        .files(c.files().clone())
        .build();
    assert_eq!(again.files()[0].src(), "a.c");
    assert_eq!(again.files()[0].out(), "out/obj/a.o");
}

#[test]
fn sources_outside_the_tree_stay_under_obj() {
    let c = CompileCommand::builder(HostOs::Linux)
        .out_dir("out")
        .file(CompilationFile::new("/abs/x.c"))
        .file(CompilationFile::new("../../up/y.c"))
        .build();
    assert_eq!(c.files()[0].out(), "out/obj/abs/x.o");
    assert_eq!(c.files()[1].out(), "out/obj/up/y.o");
    assert_eq!(c.output_dirs(), strings(&["out/obj", "out/obj/abs", "out/obj/up"]));
}

#[test]
fn relative_cases() {
    assert_eq!(relative("/a/b"), "a/b");
    assert_eq!(relative("../../a"), "a");
    assert_eq!(relative(".."), "");
    assert_eq!(relative("a/../b"), "a/../b");
    assert_eq!(relative("..a/b"), "..a/b");
}

#[test]
fn listed_dirs_are_normalized() {
    let c = CompileCommand::builder(HostOs::Linux)
        .out_dir("out")
        .dir(vec![DirEntry::Dir("./src/".to_string()), DirEntry::File("./src/m.c".to_string())])
        .build();
    assert_eq!(c.files()[0].out(), "out/obj/src/m.o");
    assert_eq!(c.output_dirs(), strings(&["out/obj", "out/obj/src"]));
}

#[test]
fn normalizing_twice_changes_nothing() {
    for p in ["a/./b/../c", "../../x/..", "/..", "", "a//b/", "/a/../../b"] {
        let once = normalize(p);
        assert_eq!(normalize(&once), once);
    }
}
