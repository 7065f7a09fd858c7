//! The backend: lowers the modules, prints their IL files, and writes into a
//! Ninja build file the steps that make the program from those files.

use vstd::prelude::*;
use vstd::string::*;
use ninja_writer::{BuildVariables, Ninja};
use crate::il::{BuildArtifacts, PrintError, artifacts_view, generate_il, il_files};
use crate::lower::{lower, modules_lowered};
use crate::mir;

verus! {

/// The build file of `ninja_writer`. Of a build file only what the names
/// `ninja_stmts` and `ninja_text` tell is known here.
#[verifier::external_type_specification]
#[verifier::external_body]
pub struct ExNinja(Ninja);

/// A statement of a Ninja build file, as far as the backend writes one.
pub enum NinjaStmt {
    /// A top-level variable.
    Variable { name: Seq<char>, value: Seq<char> },
    /// A rule whose only variable is its command.
    Rule { name: Seq<char>, command: Seq<char> },
    /// A build edge of a rule, with its outputs and its explicit inputs and nothing else.
    Build { rule: Seq<char>, outputs: Seq<Seq<char>>, inputs: Seq<Seq<char>> },
    /// A statement of default targets.
    Default { outputs: Seq<Seq<char>> },
    /// Any other statement.
    Other,
}

/// The statements that a Ninja build file holds, in the order in which they
/// were added. Nothing is proved of this name: what is said of it is what
/// the functions below claim of the methods of `ninja_writer::Ninja`.
pub uninterp spec fn ninja_stmts(ninja: Ninja) -> Seq<NinjaStmt>;

/// The text of a Ninja build file of the given statements, as
/// `ninja_writer` writes it. It is the text of such a file only where none
/// of the statements is `Other`, of which the text is not known from here.
pub uninterp spec fn ninja_text(stmts: Seq<NinjaStmt>) -> Seq<char>;

/// None of the statements is `Other`: what each of them holds is known.
pub open spec fn all_known(stmts: Seq<NinjaStmt>) -> bool {
    forall|i: int| 0 <= i < stmts.len() ==> !((#[trigger] stmts[i]) is Other)
}

/// What `Path::with_extension` makes of a file name and an extension, as
/// text. The file name is read by the path syntax of the platform that the
/// library is built for.
pub uninterp spec fn with_extension(filename: Seq<char>, ext: Seq<char>) -> Seq<char>;

/// The mathematical value of strings.
pub open spec fn strings_view(v: Seq<String>) -> Seq<Seq<char>> {
    Seq::new(v.len(), |i: int| v[i]@)
}

/// An empty build file, by `Ninja::new`, which makes a file without statements.
#[verifier::external_body]
pub(crate) fn ninja_new() -> (ninja: Ninja)
    ensures
        ninja_stmts(ninja) == Seq::<NinjaStmt>::empty(),
{
    Ninja::new()
}

/// The text of a build file, by `to_string`, which writes the file as its
/// `Display` does: statement after statement, with an empty line where the
/// kind of statement changes and before each rule. The claim is that the
/// text of a file without `Other` depends on its statements alone, and is
/// the one named `ninja_text`.
#[verifier::external_body]
pub(crate) fn ninja_to_string(ninja: &Ninja) -> (text: String)
    ensures
        all_known(ninja_stmts(*ninja)) ==> text@ == ninja_text(ninja_stmts(*ninja)),
{
    ninja.to_string()
}

/// Adds a top-level variable with `Ninja::variable`, which appends a
/// variable statement of that name and value to the file's statements.
#[verifier::external_body]
fn ninja_variable(ninja: &mut Ninja, name: &str, value: &str)
    ensures
        ninja_stmts(*final(ninja)) == ninja_stmts(*old(ninja)).push(
            NinjaStmt::Variable { name: name@, value: value@ },
        ),
{
    ninja.variable(name, value);
}

/// Adds a rule with `Ninja::rule`, which appends to the file's statements a
/// rule of that name whose only variable is the command.
#[verifier::external_body]
fn ninja_rule(ninja: &mut Ninja, name: &str, command: &str)
    ensures
        ninja_stmts(*final(ninja)) == ninja_stmts(*old(ninja)).push(
            NinjaStmt::Rule { name: name@, command: command@ },
        ),
{
    ninja.rule(name, command);
}

/// Adds a build edge: `Build::new` makes the edge of a rule's name and the
/// outputs, `BuildVariables::with` gives it the inputs as its explicit
/// dependencies, and `AddOnlyVec::add_rc` appends it to the file's
/// statements. This is what `RuleRef::build` does; the edge is made of the
/// rule's name, since a `RuleRef` adds to its file without naming it.
#[verifier::external_body]
fn ninja_build(ninja: &mut Ninja, rule: &str, outputs: &Vec<String>, inputs: &Vec<String>)
    ensures
        ninja_stmts(*final(ninja)) == ninja_stmts(*old(ninja)).push(
            NinjaStmt::Build {
                rule: rule@,
                outputs: strings_view(outputs@),
                inputs: strings_view(inputs@),
            },
        ),
{
    let named = ninja_writer::Rule::new(rule, "");
    let build = ninja_writer::Build::new(&named, outputs).with(inputs);
    ninja.stmts.add_rc(ninja_writer::stmt::Stmt::Build(Box::new(build)));
}

/// Adds default targets with `Ninja::defaults`, which appends a default
/// statement of those outputs to the file's statements.
#[verifier::external_body]
fn ninja_defaults(ninja: &mut Ninja, outputs: &Vec<String>)
    ensures
        ninja_stmts(*final(ninja)) == ninja_stmts(*old(ninja)).push(
            NinjaStmt::Default { outputs: strings_view(outputs@) },
        ),
{
    ninja.defaults(outputs);
}

/// The extension holds no path separator.
pub open spec fn plain_extension(ext: Seq<char>) -> bool {
    forall|i: int| 0 <= i < ext.len() ==> ext[i] != '/' && ext[i] != '\\'
}

/// The file name with its extension replaced, by `Path::with_extension`,
/// and as text again. The claim is that this text is the one named
/// `with_extension`: that it depends on the name and the extension alone.
/// An extension with a path separator is left out: on such a one
/// `Path::with_extension` does not return.
#[verifier::external_body]
fn with_ext(filename: &str, ext: &str) -> (replaced: String)
    requires
        plain_extension(ext@),
    ensures
        replaced@ == with_extension(filename@, ext@),
{
    std::path::Path::new(filename).with_extension(ext).display().to_string()
}

/// Each name with `prefix` before it.
pub open spec fn prefixed(prefix: Seq<char>, names: Seq<Seq<char>>) -> Seq<Seq<char>> {
    Seq::new(names.len(), |i: int| prefix + names[i])
}

/// The parts, with one space between two of them.
pub open spec fn joined(parts: Seq<Seq<char>>) -> Seq<char>
    decreases parts.len(),
{
    if parts.len() == 0 {
        Seq::empty()
    } else if parts.len() == 1 {
        parts[0]
    } else {
        joined(parts.drop_last()) + " "@ + parts.last()
    }
}

/// The flags that the link step gets: `-l` with each library, then `-L`
/// with each library path.
pub open spec fn link_flags(libraries: Seq<Seq<char>>, library_paths: Seq<Seq<char>>) -> Seq<
    char,
> {
    joined(prefixed("-l"@, libraries) + prefixed("-L"@, library_paths))
}

/// The names of files.
pub open spec fn file_names(files: Seq<(Seq<char>, Seq<char>)>) -> Seq<Seq<char>> {
    Seq::new(files.len(), |i: int| files[i].0)
}

/// The object file of each IL file.
pub open spec fn objects(ils: Seq<Seq<char>>) -> Seq<Seq<char>> {
    Seq::new(ils.len(), |i: int| with_extension(ils[i], "o"@))
}

/// The build edges of IL files: for each file, in order, its assembly by
/// `qbe` and then its object by `cc`.
pub open spec fn compile_edges(ils: Seq<Seq<char>>) -> Seq<NinjaStmt>
    decreases ils.len(),
{
    if ils.len() == 0 {
        Seq::empty()
    } else {
        compile_edges(ils.drop_last()) + seq![
            NinjaStmt::Build {
                rule: "qbe"@,
                outputs: seq![with_extension(ils.last(), "s"@)],
                inputs: seq![ils.last()],
            },
            NinjaStmt::Build {
                rule: "cc"@,
                outputs: seq![with_extension(ils.last(), "o"@)],
                inputs: seq![with_extension(ils.last(), "s"@)],
            },
        ]
    }
}

/// The statements that build the program `output` from IL files: the three
/// rules, the edges of the files, the link of their objects, and the
/// program as the default target.
pub open spec fn build_plan(ils: Seq<Seq<char>>, output: Seq<char>) -> Seq<NinjaStmt> {
    seq![
        NinjaStmt::Rule { name: "qbe"@, command: "qbe -o $out $in"@ },
        NinjaStmt::Rule { name: "cc"@, command: "cc -o $out -c $in"@ },
        NinjaStmt::Rule { name: "link"@, command: "cc -o $out $in $link_flags"@ },
    ] + compile_edges(ils) + seq![
        NinjaStmt::Build { rule: "link"@, outputs: seq![output], inputs: objects(ils) },
        NinjaStmt::Default { outputs: seq![output] },
    ]
}

/// The statements that the backend adds to a build file: the variable of
/// the link flags, and then the build plan.
pub open spec fn backend_stmts(
    libraries: Seq<Seq<char>>,
    library_paths: Seq<Seq<char>>,
    ils: Seq<Seq<char>>,
    output: Seq<char>,
) -> Seq<NinjaStmt> {
    seq![NinjaStmt::Variable { name: "link_flags"@, value: link_flags(libraries, library_paths) }]
        + build_plan(ils, output)
}

/// What the backend adds to a build file holds no statement that is `Other`.
pub proof fn lemma_backend_stmts_known(
    libraries: Seq<Seq<char>>,
    library_paths: Seq<Seq<char>>,
    ils: Seq<Seq<char>>,
    output: Seq<char>,
)
    ensures
        all_known(backend_stmts(libraries, library_paths, ils, output)),
{
    lemma_compile_edges_known(ils);
    let stmts = backend_stmts(libraries, library_paths, ils, output);
    let edges = compile_edges(ils);
    assert forall|i: int| 0 <= i < stmts.len() implies !((#[trigger] stmts[i]) is Other) by {
        if 4 <= i < 4 + edges.len() {
            assert(stmts[i] == edges[i - 4]);
        }
    }
}

proof fn lemma_compile_edges_known(ils: Seq<Seq<char>>)
    ensures
        all_known(compile_edges(ils)),
        compile_edges(ils).len() == 2 * ils.len(),
    decreases ils.len(),
{
    if ils.len() > 0 {
        lemma_compile_edges_known(ils.drop_last());
        let front = compile_edges(ils.drop_last());
        let all = compile_edges(ils);
        assert forall|i: int| 0 <= i < all.len() implies !((#[trigger] all[i]) is Other) by {
            if i < front.len() {
                assert(all[i] == front[i]);
            }
        }
    }
}

fn append_flags(
    prefix: &str,
    names: &Vec<String>,
    done: Ghost<Seq<Seq<char>>>,
    any_done: bool,
    out: &mut String,
)
    requires
        old(out)@ == joined(done@),
        any_done == (done@.len() > 0),
    ensures
        final(out)@ == joined(done@ + prefixed(prefix@, strings_view(names@))),
{
    let ghost flags = prefixed(prefix@, strings_view(names@));
    let mut i: usize = 0;
    assert(done@ + flags.take(0) =~= done@);
    while i < names.len()
        invariant
            i <= names.len(),
            flags == prefixed(prefix@, strings_view(names@)),
            any_done == (done@.len() > 0),
            out@ == joined(done@ + flags.take(i as int)),
        decreases names.len() - i,
    {
        let ghost so_far = done@ + flags.take(i as int);
        let ghost next = done@ + flags.take(i + 1);
        proof {
            assert(next.drop_last() =~= so_far);
            assert(next.last() == prefix@ + names@[i as int]@);
        }
        if any_done || i > 0 {
            out.append(" ");
        }
        out.append(prefix);
        out.append(names[i].as_str());
        assert(out@ =~= joined(next));
        i = i + 1;
    }
    assert(flags.take(i as int) =~= flags);
}

fn set_link_flags_var(libraries: &Vec<String>, library_paths: &Vec<String>, ninja_writer: &mut Ninja)
    ensures
        ninja_stmts(*final(ninja_writer)) == ninja_stmts(*old(ninja_writer)).push(
            NinjaStmt::Variable {
                name: "link_flags"@,
                value: link_flags(strings_view(libraries@), strings_view(library_paths@)),
            },
        ),
{
    let mut link_flags = String::new();
    let ghost libs = prefixed("-l"@, strings_view(libraries@));
    assert(Seq::<Seq<char>>::empty() + libs =~= libs);
    append_flags("-l", libraries, Ghost(Seq::empty()), false, &mut link_flags);
    append_flags("-L", library_paths, Ghost(libs), libraries.len() > 0, &mut link_flags);
    ninja_variable(ninja_writer, "link_flags", link_flags.as_str());
}

fn configure_ninja_build(build_artifacts: &BuildArtifacts, output: &String, ninja_writer: &mut Ninja)
    ensures
        ninja_stmts(*final(ninja_writer)) == ninja_stmts(*old(ninja_writer)) + build_plan(
            file_names(artifacts_view(build_artifacts@)),
            output@,
        ),
{
    let ghost start = ninja_stmts(*ninja_writer);
    let ghost ils = file_names(artifacts_view(build_artifacts@));
    let ghost rules = seq![
        NinjaStmt::Rule { name: "qbe"@, command: "qbe -o $out $in"@ },
        NinjaStmt::Rule { name: "cc"@, command: "cc -o $out -c $in"@ },
        NinjaStmt::Rule { name: "link"@, command: "cc -o $out $in $link_flags"@ },
    ];
    proof {
        reveal_strlit("s");
        reveal_strlit("o");
        assert(plain_extension("s"@));
        assert(plain_extension("o"@));
    }
    ninja_rule(ninja_writer, "qbe", "qbe -o $out $in");
    ninja_rule(ninja_writer, "cc", "cc -o $out -c $in");
    ninja_rule(ninja_writer, "link", "cc -o $out $in $link_flags");
    let mut objs: Vec<String> = Vec::new();
    let mut i: usize = 0;
    assert(ils.take(0) =~= Seq::<Seq<char>>::empty());
    assert(ninja_stmts(*ninja_writer) =~= start + rules + compile_edges(ils.take(0)));
    assert(strings_view(objs@) =~= objects(ils).take(0));
    while i < build_artifacts.len()
        invariant
            i <= build_artifacts.len(),
            objs.len() == i,
            ils == file_names(artifacts_view(build_artifacts@)),
            ninja_stmts(*ninja_writer) == start + rules + compile_edges(ils.take(i as int)),
            strings_view(objs@) == objects(ils).take(i as int),
            plain_extension("s"@),
            plain_extension("o"@),
        decreases build_artifacts.len() - i,
    {
        proof {
            assert(ils.take(i + 1).drop_last() =~= ils.take(i as int));
            assert(ils.take(i + 1).last() == build_artifacts@[i as int].0@);
        }
        let il = &build_artifacts[i].0;
        let assembly = with_ext(il.as_str(), "s");
        let obj = with_ext(il.as_str(), "o");
        let mut asms: Vec<String> = Vec::new();
        asms.push(assembly);
        let mut ils_in: Vec<String> = Vec::new();
        ils_in.push(il.clone());
        let mut objs_out: Vec<String> = Vec::new();
        objs_out.push(obj.clone());
        proof {
            assert(strings_view(asms@) =~= seq![with_extension(il@, "s"@)]);
            assert(strings_view(ils_in@) =~= seq![il@]);
            assert(strings_view(objs_out@) =~= seq![with_extension(il@, "o"@)]);
        }
        ninja_build(ninja_writer, "qbe", &asms, &ils_in);
        ninja_build(ninja_writer, "cc", &objs_out, &asms);
        let ghost before = strings_view(objs@);
        objs.push(obj);
        assert(strings_view(objs@) =~= before.push(obj@));
        assert(strings_view(objs@) =~= objects(ils).take(i + 1));
        assert(ninja_stmts(*ninja_writer) =~= start + rules + compile_edges(ils.take(i + 1)));
        i = i + 1;
    }
    assert(ils.take(i as int) =~= ils);
    assert(objects(ils).take(i as int) =~= objects(ils));
    let mut outputs: Vec<String> = Vec::new();
    outputs.push(output.clone());
    assert(strings_view(outputs@) =~= seq![output@]);
    ninja_build(ninja_writer, "link", &outputs, &objs);
    ninja_defaults(ninja_writer, &outputs);
    assert(ninja_stmts(*ninja_writer) =~= start + build_plan(ils, output@));
}

/// The backend of one build: the libraries to link with, the paths to
/// search for them, and the program to make.
pub struct Backend<'a> {
    libraries: &'a Vec<String>,
    library_paths: &'a Vec<String>,
    output: &'a String,
}

/// The backend that links with `libraries`, searches them in
/// `library_paths`, and makes the program `output`.
pub fn new<'a>(
    libraries: &'a Vec<String>,
    library_paths: &'a Vec<String>,
    output: &'a String,
) -> (backend: Backend<'a>)
    ensures
        backend.libraries() == strings_view(libraries@),
        backend.library_paths() == strings_view(library_paths@),
        backend.output() == output@,
{
    Backend { libraries, library_paths, output }
}

impl<'a> Backend<'a> {
    /// The libraries to link with.
    pub closed spec fn libraries(&self) -> Seq<Seq<char>> {
        strings_view(self.libraries@)
    }

    /// The paths to search for the libraries.
    pub closed spec fn library_paths(&self) -> Seq<Seq<char>> {
        strings_view(self.library_paths@)
    }

    /// The program to make.
    pub closed spec fn output(&self) -> Seq<char> {
        self.output@
    }

    /// Lowers the modules and prints them: the IL files, one for each
    /// module. Adds to the build file the variable of the link flags and
    /// the plan that builds the program from those files.
    pub fn generate_build_artifacts(&self, modules: &[mir::Module], ninja_writer: &mut Ninja) -> (r:
        Result<BuildArtifacts, PrintError>)
        ensures
            r matches Ok(files) && artifacts_view(files@) == il_files(
                modules_lowered(mir::modules_view(modules@)),
            ),
            ninja_stmts(*final(ninja_writer)) == ninja_stmts(*old(ninja_writer)) + backend_stmts(
                self.libraries(),
                self.library_paths(),
                file_names(il_files(modules_lowered(mir::modules_view(modules@)))),
                self.output(),
            ),
    {
        let comp_units = lower(modules);
        let build_artifacts = generate_il(comp_units.as_slice())?;
        set_link_flags_var(self.libraries, self.library_paths, ninja_writer);
        configure_ninja_build(&build_artifacts, self.output, ninja_writer);
        assert(ninja_stmts(*ninja_writer) =~= ninja_stmts(*old(ninja_writer)) + backend_stmts(
            self.libraries(),
            self.library_paths(),
            file_names(il_files(modules_lowered(mir::modules_view(modules@)))),
            self.output(),
        ));
        Ok(build_artifacts)
    }
}

} // verus!
