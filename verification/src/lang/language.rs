//! The languages of source files: how a file is recognized, whether it is
//! compiled, and with which commands it is compiled and run.

use vstd::prelude::*;
use crate::dag::execution::ExecutionCommand;
use crate::lang::path::{
    extension, extension_of, file_name, file_name_of, file_stem, has_extension, has_file_name,
    stem_of,
};
use crate::cache::text_view;

verus! {

/// A language.
#[derive(Debug, Clone, Copy, PartialEq, Eq, Structural)]
pub enum Language {
    /// C, compiled with `gcc`.
    C,
    /// C++, compiled with `g++`.
    Cpp,
    /// Python, run as a script.
    Python,
    /// Shell, run as a script.
    Shell,
}

/// The name of the file that a compilation produces in its sandbox.
pub open spec fn compiled_name() -> Seq<char> {
    "compiled"@
}

/// Adds a text to a list of texts.
pub fn push_text(texts: &mut Vec<String>, text: &str)
    ensures
        final(texts).deep_view() == old(texts).deep_view().push(text@),
{
    texts.push(text.to_owned());
    assert(texts.deep_view() =~= old(texts).deep_view().push(text@));
}

impl Language {
    /// The language of the files with this extension.
    pub open spec fn for_extension(extension: Seq<char>) -> Option<Language> {
        if extension == "c"@ {
            Some(Language::C)
        } else if extension == "cpp"@ || extension == "cc"@ || extension == "cxx"@ {
            Some(Language::Cpp)
        } else if extension == "py"@ {
            Some(Language::Python)
        } else if extension == "sh"@ {
            Some(Language::Shell)
        } else {
            None
        }
    }

    /// The language of the file at `path`, by the extension of its name.
    pub open spec fn detected(path: Seq<char>) -> Option<Language> {
        if has_extension(file_name_of(path)) {
            Self::for_extension(extension_of(file_name_of(path)))
        } else {
            None
        }
    }

    /// Detects the language of the file at `path`, by the extension of its name.
    pub fn detect_language(path: &str) -> (language: Option<Language>)
        ensures
            language == Self::detected(path@),
    {
        match extension(path) {
            Some(text) => {
                if text == "c".to_owned() {
                    Some(Language::C)
                } else if text == "cpp".to_owned() || text == "cc".to_owned() || text
                    == "cxx".to_owned() {
                    Some(Language::Cpp)
                } else if text == "py".to_owned() {
                    Some(Language::Python)
                } else if text == "sh".to_owned() {
                    Some(Language::Shell)
                } else {
                    None
                }
            },
            None => None,
        }
    }

    /// Whether files of the language are compiled before they run.
    pub open spec fn spec_need_compilation(&self) -> bool {
        *self == Language::C || *self == Language::Cpp
    }

    /// Whether files of the language are compiled before they run.
    #[verifier::when_used_as_spec(spec_need_compilation)]
    pub fn need_compilation(&self) -> (needed: bool)
        ensures
            needed == self.spec_need_compilation(),
    {
        match self {
            Language::C => true,
            Language::Cpp => true,
            _ => false,
        }
    }

    /// The name of the language.
    pub open spec fn spec_name(&self) -> Seq<char> {
        match *self {
            Language::C => "C"@,
            Language::Cpp => "C++"@,
            Language::Python => "Python"@,
            Language::Shell => "Shell"@,
        }
    }

    /// The name of the language.
    pub fn name(&self) -> (name: String)
        ensures
            name@ == self.spec_name(),
    {
        match self {
            Language::C => "C".to_owned(),
            Language::Cpp => "C++".to_owned(),
            Language::Python => "Python".to_owned(),
            Language::Shell => "Shell".to_owned(),
        }
    }

    /// The compiler of the language.
    pub open spec fn compiler(&self) -> Seq<char> {
        if *self == Language::C {
            "gcc"@
        } else {
            "g++"@
        }
    }

    /// The command that compiles a file of the language.
    pub fn compilation_command(&self) -> (command: ExecutionCommand)
        ensures
            command matches ExecutionCommand::System(name) && name@ == self.compiler(),
    {
        match self {
            Language::C => ExecutionCommand::System("gcc".to_owned()),
            _ => ExecutionCommand::System("g++".to_owned()),
        }
    }

    /// The arguments that compile the file named `source` into the file
    /// named [`compiled_name`].
    pub open spec fn compile_args(source: Seq<char>) -> Seq<Seq<char>> {
        seq!["-O2"@, "-Wall"@, "-ggdb3"@, "-DEVAL"@, "-o"@, compiled_name(), source]
    }

    /// The arguments that compile the file named `source`.
    pub fn compilation_args(&self, source: &str) -> (args: Vec<String>)
        ensures
            args.deep_view() == Self::compile_args(source@),
    {
        let mut args: Vec<String> = Vec::new();
        assert(args.deep_view() =~= Seq::<Seq<char>>::empty());
        push_text(&mut args, "-O2");
        push_text(&mut args, "-Wall");
        push_text(&mut args, "-ggdb3");
        push_text(&mut args, "-DEVAL");
        push_text(&mut args, "-o");
        push_text(&mut args, "compiled");
        push_text(&mut args, source);
        assert(args.deep_view() =~= Self::compile_args(source@));
        args
    }

    /// The name of the file that a compilation produces in its sandbox.
    pub fn compiled_file_name(&self) -> (name: String)
        ensures
            name@ == compiled_name(),
    {
        "compiled".to_owned()
    }

    /// The name under which the program of the source file at `path` stands
    /// in the sandbox that runs it: for a compiled language, the name of the
    /// file that the executable is written to, if any, or else the name of
    /// the source file without its extension; for a script, the name of the
    /// source file.
    pub open spec fn executable_name_of(&self, path: Seq<char>, write_to: Option<Seq<char>>) -> Seq<
        char,
    > {
        if self.spec_need_compilation() {
            match write_to {
                Some(target) => if has_file_name(target) {
                    file_name_of(target)
                } else {
                    stem_of(file_name_of(path))
                },
                None => stem_of(file_name_of(path)),
            }
        } else {
            file_name_of(path)
        }
    }

    /// The name under which the program of the source file at `path` stands
    /// in the sandbox that runs it.
    pub fn executable_name(&self, path: &str, write_to: &Option<String>) -> (name: String)
        requires
            has_file_name(path@),
        ensures
            name@ == self.executable_name_of(path@, text_view(*write_to)),
    {
        if self.need_compilation() {
            if let Some(target) = write_to {
                if let Some(name) = file_name(target.as_str()) {
                    return name;
                }
            }
            match file_stem(path) {
                Some(stem) => stem,
                None => String::new(),
            }
        } else {
            match file_name(path) {
                Some(name) => name,
                None => String::new(),
            }
        }
    }

    /// The command that runs the program of the source file at `path`: the
    /// program itself, under its name in the sandbox.
    pub fn runtime_command(&self, path: &str, write_to: &Option<String>) -> (command:
        ExecutionCommand)
        requires
            has_file_name(path@),
        ensures
            command matches ExecutionCommand::Local(name) && name@ == self.executable_name_of(
                path@,
                text_view(*write_to),
            ),
    {
        ExecutionCommand::Local(self.executable_name(path, write_to))
    }
}

} // verus!
