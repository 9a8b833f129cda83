//! Source files that can be run, after a compilation where their language asks for one.

use vstd::prelude::*;
use crate::cache::text_view;
use crate::dag::dag::{
    execution_declared, file_callbacks_set, put_provided, request_of, ExecutionDAG,
    FileCallbacks, ProvidedFile,
};
use crate::dag::execution::{
    output_description, with_input, Execution, ExecutionCommand, ExecutionInput,
    ExecutionLimits, ExecutionTag, Priority,
};
use crate::dag::file::{ExecutionUuid, File, FileUuid};
use crate::lang::language::{compiled_name, Language};
use crate::lang::path::{
    file_name, file_name_of, has_file_name, join, joined, lemma_extension_start,
    lemma_name_start,
};
use crate::store::FileStoreKey;

verus! {

/// Length of the stdout/stderr of the compilers to capture.
pub const COMPILATION_CONTENT_LENGTH: usize = 10240;

/// The priority of the compilations: above that of everything else, so that
/// no other execution keeps a compilation waiting.
pub const COMPILATION_PRIORITY: Priority = 1_000_000_000;

/// A source file that will be able to be executed (with an optional compilation step).
///
/// After creating a `SourceFile` using `new` you can add start using it via the `execute` method.
/// Note that it may add to the DAG an extra execution for compiling the source file.
#[derive(Debug)]
pub struct SourceFile {
    /// Path to the source file.
    pub path: String,
    /// Path to the base directory (e.g. the task root), used for including the source file
    /// dependencies from the command line args of the executable (in case of relative paths).
    pub base_path: String,
    /// Language of the source file.
    pub language: Language,
    /// Handle to the executable after the compilation/provided file.
    pub executable: Option<File>,
    /// Whether to force the copy-exe option of the DAG for this source file.
    pub copy_exe: bool,
    /// Where to write the compiled executable.
    pub write_bin_to: Option<String>,
}

/// The limits of a compilation: any number of processes, a root that can be
/// written to, and a scratch file system.
pub open spec fn compilation_limits() -> ExecutionLimits {
    ExecutionLimits {
        nproc: None,
        read_only: false,
        mount_tmpfs: true,
        ..ExecutionLimits::spec_default()
    }
}

/// A text as the debug format of strings writes it: between double quotes,
/// with the characters escaped that the format escapes.
pub uninterp spec fn debug_text(text: Seq<char>) -> Seq<char>;

/// Writes a text with `format!` and the debug format of `str`, `{:?}`. What
/// comes out depends on the characters of the text alone; which characters
/// are escaped, and how, is the format's business and is not restated here.
#[verifier::external_body]
fn quoted(text: &str) -> (quoted: String)
    ensures
        quoted@ == debug_text(text@),
{
    format!("{:?}", text)
}

/// Whether `compilation` compiles `source`, reading it from `input` and
/// writing the program to `output`.
pub open spec fn is_compilation(
    source: SourceFile,
    compilation: Execution,
    input: File,
    output: File,
) -> bool {
    &&& compilation.description@ == "Compilation of "@ + debug_text(file_name_of(source.path@))
    &&& compilation.command matches ExecutionCommand::System(name) && name@
        == source.language.compiler()
    &&& compilation.args.deep_view() == Language::compile_args(file_name_of(source.path@))
    &&& compilation.stdin is None
    &&& compilation.stdout is None
    &&& compilation.stderr is None
    &&& compilation.inputs@.len() == 1
    &&& compilation.inputs@[0].path@ == file_name_of(source.path@)
    &&& compilation.inputs@[0].file == input.uuid
    &&& !compilation.inputs@[0].executable
    &&& compilation.outputs@.len() == 1
    &&& compilation.outputs@[0].path@ == compiled_name()
    &&& compilation.outputs@[0].file == output
    &&& compilation.limits == compilation_limits()
    &&& compilation.tag matches Some(tag) && tag.name@ == "compilation"@
    &&& compilation.priority == COMPILATION_PRIORITY
    &&& compilation.capture_stdout == Some(COMPILATION_CONTENT_LENGTH)
    &&& compilation.capture_stderr == Some(COMPILATION_CONTENT_LENGTH)
    &&& input.description@ == "Source file of "@ + debug_text(source.path@)
    &&& output.description@ == output_description(
        compilation.description@,
        compiled_name(),
    )
}

/// Whether the program of `source`, the file `program`, is copied when it is
/// ready: the graph or the source file asks for copies, and the source file
/// says where to.
pub open spec fn copies(source: SourceFile, before: ExecutionDAG) -> bool {
    (before.data.config.copy_exe || source.copy_exe) && source.write_bin_to is Some
}

/// Whether the callbacks `after` are `before` with the copy of `program` asked for, where it is.
pub open spec fn copy_asked(
    source: SourceFile,
    before: ExecutionDAG,
    after: Map<FileUuid, FileCallbacks>,
    program: FileUuid,
) -> bool {
    if copies(source, before) {
        file_callbacks_set(
            before.file_callbacks@,
            after,
            FileCallbacks {
                file: program,
                write_to: source.write_bin_to,
                get_content: request_of(before.file_callbacks@, program),
            },
        )
    } else {
        after == before.file_callbacks@
    }
}

/// Whether `after` and `graph_after` are what `before` and `graph_before`
/// become when the source file is prepared, and `compilation` is what the
/// preparation returns. A file that is prepared already is left alone. A
/// script is provided to the graph as its own program. A file that needs a
/// compilation gets one, declared to the graph; the source is provided to the
/// graph, and the program is the output of the compilation.
pub open spec fn prepared(
    before: SourceFile,
    graph_before: ExecutionDAG,
    content: Seq<u8>,
    after: SourceFile,
    graph_after: ExecutionDAG,
    compilation: Option<ExecutionUuid>,
) -> bool {
    if before.executable is Some {
        &&& after == before
        &&& graph_after == graph_before
        &&& compilation is None
    } else {
        &&& after.executable is Some
        &&& after == (SourceFile { executable: after.executable, ..before })
        &&& graph_after.data.config == graph_before.data.config
        &&& graph_after.execution_callbacks == graph_before.execution_callbacks
        &&& copy_asked(before, graph_before, graph_after.file_callbacks@, after.executable->0.uuid)
        &&& if before.language.spec_need_compilation() {
            exists|made: Execution, input: File|
                {
                    &&& #[trigger] is_compilation(before, made, input, after.executable->0)
                    &&& compilation == Some(made.uuid)
                    &&& execution_declared(
                        graph_before.data.execution_groups@,
                        graph_after.data.execution_groups@,
                        made,
                    )
                    &&& graph_after.data.provided_files@ == put_provided(
                        graph_before.data.provided_files@,
                        ProvidedFile {
                            file: input,
                            key: FileStoreKey::of(content),
                            local_path: before.path,
                        },
                    )
                }
        } else {
            &&& compilation is None
            &&& after.executable->0.description@ == "Source file of "@ + debug_text(before.path@)
            &&& graph_after.data.execution_groups == graph_before.data.execution_groups
            &&& graph_after.data.provided_files@ == put_provided(
                graph_before.data.provided_files@,
                ProvidedFile {
                    file: after.executable->0,
                    key: FileStoreKey::of(content),
                    local_path: before.path,
                },
            )
        }
    }
}

impl SourceFile {
    /// Whether the source file is well formed: its path names a file, and its
    /// language is the one detected from that name.
    pub open spec fn wf(&self) -> bool {
        &&& has_file_name(self.path@)
        &&& Language::detected(self.path@) == Some(self.language)
    }

    /// Make a new `SourceFile` from the provided file. Will return `None` if the language is
    /// unknown.
    pub fn new(path: String, base_path: String, write_bin_to: Option<String>) -> (source: Option<
        SourceFile,
    >)
        ensures
            source is Some == Language::detected(path@) is Some,
            source matches Some(made) ==> made.wf() && made == (SourceFile {
                path,
                base_path,
                language: Language::detected(path@)->0,
                executable: None,
                copy_exe: false,
                write_bin_to,
            }),
    {
        match Language::detect_language(path.as_str()) {
            Some(language) => {
                proof {
                    lemma_extension_start(file_name_of(path@));
                    lemma_name_start(path@);
                }
                Some(
                    SourceFile {
                        path,
                        base_path,
                        language,
                        executable: None,
                        copy_exe: false,
                        write_bin_to,
                    },
                )
            },
            None => None,
        }
    }

    /// Force the executable to be copied to `write_bin_to` regardless of the option of the DAG.
    pub fn copy_exe(&mut self)
        ensures
            *final(self) == (SourceFile { copy_exe: true, ..*old(self) }),
    {
        self.copy_exe = true;
    }

    /// The file name of the source file.
    pub fn name(&self) -> (name: String)
        requires
            self.wf(),
        ensures
            name@ == file_name_of(self.path@),
    {
        match file_name(self.path.as_str()) {
            Some(name) => name,
            None => String::new(),
        }
    }

    /// The optional destination of where to copy the executable if copy-exe option is set.
    pub fn write_bin_to(&self) -> (target: Option<String>)
        ensures
            target == self.write_bin_to,
    {
        self.write_bin_to.clone()
    }

    /// Where an argument of the program is looked for as a file of the client.
    pub fn argument_path(&self, argument: &str) -> (path: String)
        ensures
            path@ == joined(self.base_path@, argument@),
    {
        join(self.base_path.as_str(), argument)
    }

    /// Asks for the copy of the program, where copies are asked for.
    fn ask_copy(&self, dag: &mut ExecutionDAG, program: FileUuid)
        ensures
            final(dag).data == old(dag).data,
            final(dag).execution_callbacks == old(dag).execution_callbacks,
            copy_asked(*self, *old(dag), final(dag).file_callbacks@, program),
    {
        if dag.data.config.copy_exe || self.copy_exe {
            if let Some(target) = &self.write_bin_to {
                dag.write_file_to(program, target.clone());
            }
        }
    }

    /// Prepare the source file setting the `executable` and eventually compiling the source file.
    /// `content` is what the source file holds. Returns the compilation that was
    /// added to the DAG, if one was.
    pub fn prepare(&mut self, dag: &mut ExecutionDAG, content: &[u8]) -> (compilation: Option<
        ExecutionUuid,
    >)
        requires
            old(self).wf(),
        ensures
            final(self).wf(),
            prepared(*old(self), *old(dag), content@, *final(self), *final(dag), compilation),
    {
        if self.executable.is_some() {
            return None;
        }
        let name = self.name();
        let described = String::from_str("Source file of ").concat(
            quoted(self.path.as_str()).as_str(),
        );
        if self.language.need_compilation() {
            let mut comp = Execution::new(
                String::from_str("Compilation of ").concat(quoted(name.as_str()).as_str()).as_str(),
                self.language.compilation_command(),
            );
            comp.tag(ExecutionTag::from("compilation"));
            comp.priority(COMPILATION_PRIORITY);
            comp.capture_stdout(COMPILATION_CONTENT_LENGTH);
            comp.capture_stderr(COMPILATION_CONTENT_LENGTH);
            comp.args = self.language.compilation_args(name.as_str());
            let source = File::new(described.as_str());
            comp.input(&source, name, false);
            comp.limits.nproc = None;
            // the compilers may need to store some temp files
            comp.limits.read_only(false);
            comp.limits.mount_tmpfs(true);
            let exec = comp.output(self.language.compiled_file_name());
            let comp_uuid = comp.uuid;
            let ghost made = comp;
            dag.add_execution(comp);
            dag.provide_file(source.clone(), self.path.clone(), content);
            self.ask_copy(dag, exec.uuid);
            self.executable = Some(exec);
            proof {
                assert(is_compilation(*old(self), made, source, exec));
            }
            Some(comp_uuid)
        } else {
            let executable = File::new(described.as_str());
            self.ask_copy(dag, executable.uuid);
            self.executable = Some(executable.clone());
            dag.provide_file(executable, self.path.clone(), content);
            None
        }
    }

    /// Prepare the source file if needed and return the executable file. If the compilation step
    /// was not executed yet the handle to the compilation execution is also returned.
    pub fn executable(&mut self, dag: &mut ExecutionDAG, content: &[u8]) -> (pair: (
        FileUuid,
        Option<ExecutionUuid>,
    ))
        requires
            old(self).wf(),
        ensures
            final(self).wf(),
            prepared(*old(self), *old(dag), content@, *final(self), *final(dag), pair.1),
            final(self).executable matches Some(program) && program.uuid == pair.0,
    {
        let comp = self.prepare(dag, content);
        let exe = match &self.executable {
            Some(program) => program.uuid,
            None => 0,
        };
        (exe, comp)
    }

    /// Execute the program relative to this source file with the specified args. If the file has
    /// not been compiled yet this may add the compilation to the DAG. The compilation is added to
    /// the DAG only once for each `SourceFile` instance.
    ///
    /// `content` is what the source file holds, and `argument_files` holds,
    /// for each argument that is a file of the client, what that file holds.
    ///
    /// The returned execution has the following properties already set:
    /// - the list of arguments
    /// - an input for each argument that is a file of the client
    /// - the input file for the executable
    ///
    /// The first element returned is the UUID of the execution of the compilation. It will be
    /// returned only once, even if the `execute` method is called more than once. The actual
    /// execution is returned as second parameter.
    ///
    /// The returned execution has all the dependencies already set, but it **has not been added**
    /// to the DAG yet.
    pub fn execute(
        &mut self,
        dag: &mut ExecutionDAG,
        description: &str,
        args: Vec<String>,
        content: &[u8],
        argument_files: &Vec<Option<Vec<u8>>>,
    ) -> (pair: (Option<ExecutionUuid>, Execution))
        requires
            old(self).wf(),
        ensures
            final(self).wf(),
            executed(
                *old(self),
                *old(dag),
                description@,
                args,
                content@,
                argument_files@,
                *final(self),
                *final(dag),
                pair.0,
                pair.1,
            ),
    {
        let comp = self.prepare(dag, content);
        let ghost middle = *dag;
        let mut exec = Execution::new(
            description,
            self.language.runtime_command(self.path.as_str(), &self.write_bin_to),
        );
        let mut i: usize = 0;
        let ghost mut handles: Seq<ProvidedFile> = seq![];
        assert(exec.inputs@ =~= Seq::<ExecutionInput>::empty());
        while i < args.len()
            invariant
                self.wf(),
                i <= args@.len(),
                dag.data.execution_groups == middle.data.execution_groups,
                dag.data.config == middle.data.config,
                dag.execution_callbacks == middle.execution_callbacks,
                dag.file_callbacks == middle.file_callbacks,
                exec == (Execution { inputs: exec.inputs, ..exec }),
                exec.description@ == description@,
                exec.command matches ExecutionCommand::Local(name) && name@
                    == self.language.executable_name_of(self.path@, text_view(self.write_bin_to)),
                exec.args@.len() == 0,
                exec.stdin is None,
                exec.stdout is None,
                exec.stderr is None,
                exec.outputs@.len() == 0,
                exec.limits == ExecutionLimits::spec_default(),
                exec.tag is None,
                exec.priority == 0,
                exec.capture_stdout is None,
                exec.capture_stderr is None,
                handles.len() == i,
                handles_fit(self.base_path@, self.path@, args@, argument_files@, handles),
                exec.inputs@ == argument_inputs(args@, argument_files@, handles, i as nat),
                dag.data.provided_files@ == argument_provided(
                    middle.data.provided_files@,
                    argument_files@,
                    handles,
                    i as nat,
                ),
            decreases args@.len() - i,
        {
            let ghost before = handles;
            let mut taken = false;
            if i < argument_files.len() {
                if let Some(bytes) = &argument_files[i] {
                    let path = self.argument_path(args[i].as_str());
                    let file = File::new(
                        String::from_str("Command line dependency ").concat(
                            quoted(path.as_str()).as_str(),
                        ).concat(" of ").concat(quoted(self.path.as_str()).as_str()).as_str(),
                    );
                    exec.input(&file, args[i].clone(), false);
                    proof {
                        handles = handles.push(
                            ProvidedFile { file, key: FileStoreKey::of(bytes@), local_path: path },
                        );
                    }
                    dag.provide_file(file, path, bytes.as_slice());
                    taken = true;
                }
            }
            proof {
                if !taken {
                    handles = handles.push(arbitrary());
                }
                lemma_handles_prefix(
                    middle.data.provided_files@,
                    args@,
                    argument_files@,
                    before,
                    handles,
                    i as nat,
                );
                assert(handles[i as int] == handles.last());
            }
            i += 1;
        }
        let ghost inputs = exec.inputs@;
        exec.args(args);
        match &self.executable {
            Some(program) => {
                exec.input(
                    program,
                    self.language.executable_name(self.path.as_str(), &self.write_bin_to),
                    true,
                );
            },
            None => {},
        }
        (comp, exec)
    }
}

/// Whether argument `i` is a file of the client: `contents` holds something for it.
pub open spec fn is_file(contents: Seq<Option<Vec<u8>>>, i: int) -> bool {
    0 <= i < contents.len() && contents[i] is Some
}

/// Whether `handles` holds, for each argument that is a file of the client,
/// the declaration of that file: under the key of what the file holds, and
/// from the path of the argument under the base directory. `source` is the
/// path of the source file.
pub open spec fn handles_fit(
    base: Seq<char>,
    source: Seq<char>,
    args: Seq<String>,
    contents: Seq<Option<Vec<u8>>>,
    handles: Seq<ProvidedFile>,
) -> bool {
    forall|i: int|
        0 <= i < handles.len() && is_file(contents, i) ==> {
            &&& (#[trigger] handles[i]).key == FileStoreKey::of(contents[i]->0@)
            &&& handles[i].local_path@ == joined(base, args[i]@)
            &&& handles[i].file.description@ == "Command line dependency "@ + debug_text(
                joined(base, args[i]@),
            ) + " of "@ + debug_text(source)
        }
}

/// The inputs of a run once the first `n` arguments are taken in: each
/// argument that is a file of the client is read under the text of the
/// argument.
pub open spec fn argument_inputs(
    args: Seq<String>,
    contents: Seq<Option<Vec<u8>>>,
    handles: Seq<ProvidedFile>,
    n: nat,
) -> Seq<ExecutionInput>
    decreases n,
{
    if n == 0 {
        seq![]
    } else {
        let before = argument_inputs(args, contents, handles, (n - 1) as nat);
        if is_file(contents, n - 1) {
            with_input(
                before,
                ExecutionInput {
                    path: args[n - 1],
                    file: handles[n - 1].file.uuid,
                    executable: false,
                },
            )
        } else {
            before
        }
    }
}

/// The files that the client provides once the first `n` arguments are taken
/// in: each argument that is a file of the client is declared.
pub open spec fn argument_provided(
    files: Seq<ProvidedFile>,
    contents: Seq<Option<Vec<u8>>>,
    handles: Seq<ProvidedFile>,
    n: nat,
) -> Seq<ProvidedFile>
    decreases n,
{
    if n == 0 {
        files
    } else {
        let before = argument_provided(files, contents, handles, (n - 1) as nat);
        if is_file(contents, n - 1) {
            put_provided(before, handles[n - 1])
        } else {
            before
        }
    }
}

/// What is taken in of the first `n` arguments depends on their declarations alone.
pub proof fn lemma_handles_prefix(
    files: Seq<ProvidedFile>,
    args: Seq<String>,
    contents: Seq<Option<Vec<u8>>>,
    handles: Seq<ProvidedFile>,
    longer: Seq<ProvidedFile>,
    n: nat,
)
    requires
        n <= handles.len() <= longer.len(),
        forall|i: int| 0 <= i < handles.len() ==> longer[i] == handles[i],
    ensures
        argument_inputs(args, contents, longer, n) == argument_inputs(args, contents, handles, n),
        argument_provided(files, contents, longer, n) == argument_provided(
            files,
            contents,
            handles,
            n,
        ),
    decreases n,
{
    if n > 0 {
        lemma_handles_prefix(files, args, contents, handles, longer, (n - 1) as nat);
    }
}

/// Whether `after`, `graph_after`, `compilation` and `run` are what
/// [`SourceFile::execute`] makes of `before` and `graph_before`: the source
/// file is prepared (see [`prepared`]); each argument that is a file of the
/// client gets a new file handle, is declared to the graph and is read by the
/// run under the text of the argument; and the run has the given description
/// and arguments, runs the program under its name in the sandbox, and reads
/// the program, as an executable, under that name.
pub open spec fn executed(
    before: SourceFile,
    graph_before: ExecutionDAG,
    description: Seq<char>,
    args: Vec<String>,
    content: Seq<u8>,
    argument_files: Seq<Option<Vec<u8>>>,
    after: SourceFile,
    graph_after: ExecutionDAG,
    compilation: Option<ExecutionUuid>,
    run: Execution,
) -> bool {
    let name = before.language.executable_name_of(before.path@, text_view(before.write_bin_to));
    &&& run.description@ == description
    &&& run.command matches ExecutionCommand::Local(program) && program@ == name
    &&& run.args == args
    &&& run.stdin is None
    &&& run.stdout is None
    &&& run.stderr is None
    &&& run.outputs@.len() == 0
    &&& run.limits == ExecutionLimits::spec_default()
    &&& run.tag is None
    &&& run.priority == 0
    &&& run.capture_stdout is None
    &&& run.capture_stderr is None
    &&& after.executable is Some
    &&& exists|middle: ExecutionDAG, handles: Seq<ProvidedFile>, path: String|
        {
            &&& #[trigger] prepared(before, graph_before, content, after, middle, compilation)
            &&& #[trigger] handles_fit(
                before.base_path@,
                before.path@,
                args@,
                argument_files,
                handles,
            )
            &&& handles.len() == args@.len()
            &&& graph_after.data.provided_files@ == argument_provided(
                middle.data.provided_files@,
                argument_files,
                handles,
                args@.len(),
            )
            &&& graph_after.data.execution_groups == middle.data.execution_groups
            &&& graph_after.data.config == middle.data.config
            &&& graph_after.execution_callbacks == middle.execution_callbacks
            &&& graph_after.file_callbacks == middle.file_callbacks
            &&& path@ == name
            &&& run.inputs@ == #[trigger] with_input(
                argument_inputs(args@, argument_files, handles, args@.len()),
                ExecutionInput { path, file: after.executable->0.uuid, executable: true },
            )
        }
}

} // verus!
