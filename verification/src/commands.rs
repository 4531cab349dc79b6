//! The commands a front end dispatches to. Everything here is the
//! pure part of each command: building the output lines, updating the
//! dependency table, and computing the paths, messages and usage
//! strings the command works with. Opening, writing, fetching and
//! launching are the front end's job; it hands plain values in and
//! carries plain values out.

use vstd::prelude::*;

use crate::assemble::{assemble, assembled, deps_view, DepSource};
use crate::config::{insert_entry, insert_dep, remove_dep, remove_entry, Config, Dependency, Package};
use crate::format::{format_doc, format_output};

verus! {

/// What a dependency or scaffolding command is asked to do.
pub enum Action {
    DepAdd,
    DepRemove,
    Init,
    New,
    Unknown,
}

/// A build failure, carrying its human-readable message.
#[derive(Debug)]
pub struct BargoError {
    pub message: String,
}

impl BargoError {
    /// Wraps a message.
    pub fn new(message: &str) -> (r: Self)
        ensures
            r.message@ == message@,
    {
        BargoError { message: String::from_str(message) }
    }

    /// A missing main source file: names the path that could not be
    /// opened.
    pub fn missing_source(path: &String) -> (r: Self)
        ensures
            r.message@ == "Could not open "@ + path@,
    {
        BargoError { message: String::from_str("Could not open ").concat(path.as_str()) }
    }

    /// A missing dependency source file: names the path and hints at
    /// the expected location.
    pub fn missing_dep_source(path: &String) -> (r: Self)
        ensures
            r.message@ == "Could not open "@ + path@ + "\nMake sure this dep exists in src/"@,
    {
        BargoError {
            message: String::from_str("Could not open ").concat(path.as_str()).concat(
                "\nMake sure this dep exists in src/",
            ),
        }
    }

    /// A destination that could not be created.
    pub fn create_failure(path: &String) -> (r: Self)
        ensures
            r.message@ == "Could not create "@ + path@,
    {
        BargoError { message: String::from_str("Could not create ").concat(path.as_str()) }
    }

    /// A destination that could not be written.
    pub fn write_failure(path: &String) -> (r: Self)
        ensures
            r.message@ == "Could not write to "@ + path@,
    {
        BargoError { message: String::from_str("Could not write to ").concat(path.as_str()) }
    }

    /// A remote source that could not be fetched.
    pub fn fetch_failure(url: &String) -> (r: Self)
        ensures
            r.message@ == "Could not fetch "@ + url@,
    {
        BargoError { message: String::from_str("Could not fetch ").concat(url.as_str()) }
    }
}

/// The name of the configuration file a package is described by.
pub fn config_file() -> (r: String)
    ensures
        r@ == "Bargo.toml"@,
{
    String::from_str("Bargo.toml")
}

/// The path of the main source file inside a package.
pub fn main_source_path() -> (r: String)
    ensures
        r@ == "src/main.bas"@,
{
    String::from_str("src/main.bas")
}

/// The path a dependency's source is read from, derived from its
/// name.
pub fn dep_source_path(name: &String) -> (r: String)
    ensures
        r@ == "src/"@ + name@ + ".bas"@,
{
    String::from_str("src/").concat(name.as_str()).concat(".bas")
}

/// The line terminator a build writes: CRLF or LF.
pub open spec fn terminator(carriage_return: bool) -> Seq<char> {
    if carriage_return {
        seq!['\r', '\n']
    } else {
        seq!['\n']
    }
}

/// Builds the package: assembles the document and formats it.
pub struct BuildCommand {
    pub config: Config,
}

impl BuildCommand {
    /// Wraps the configuration a build runs under.
    pub fn new(config: Config) -> (r: Self)
        ensures
            r.config == config,
    {
        BuildCommand { config }
    }

    /// Numbers and formats the assembled lines under this build's
    /// configuration.
    pub fn format_lines(&self, lines: &Vec<String>) -> (r: Vec<String>)
        requires
            self.config.package.numbering >= 1,
            lines@.len() * self.config.package.numbering <= usize::MAX,
            self.config.package.labels ==> (lines@.len() + 1) * self.config.package.numbering
                <= usize::MAX,
        ensures
            r.deep_view() == format_output(
                lines.deep_view(),
                self.config.package.numbering as int,
                self.config.package.width as int,
                self.config.package.labels,
            ),
    {
        format_doc(
            lines,
            self.config.package.numbering,
            self.config.package.width,
            self.config.package.labels,
        )
    }

    /// Assembles the main lines with the dependency blocks and
    /// formats the result: the whole pure part of a build.
    pub fn build_output(&self, main: &Vec<String>, deps: &Vec<DepSource>) -> (r: Vec<String>)
        requires
            self.config.package.numbering >= 1,
            assembled(main.deep_view(), deps_view(deps@)).len() * self.config.package.numbering
                <= usize::MAX,
            self.config.package.labels ==> (assembled(main.deep_view(), deps_view(deps@)).len()
                + 1) * self.config.package.numbering <= usize::MAX,
        ensures
            r.deep_view() == format_output(
                assembled(main.deep_view(), deps_view(deps@)),
                self.config.package.numbering as int,
                self.config.package.width as int,
                self.config.package.labels,
            ),
    {
        let doc = assemble(main, deps);
        proof {
            assert(doc@.len() == doc.deep_view().len());
        }
        self.format_lines(&doc)
    }

    /// The file a build writes, named after the package.
    pub fn output_path(&self) -> (r: String)
        ensures
            r@ == self.config.package.name@ + ".bas"@,
    {
        self.config.package.name.clone().concat(".bas")
    }

    /// The terminator this build ends each written line with.
    pub fn line_terminator(&self) -> (r: String)
        ensures
            r@ == terminator(self.config.package.carriage_return),
    {
        if self.config.package.carriage_return {
            let r = String::from_str("\r\n");
            proof {
                reveal_strlit("\r\n");
                assert(r@ =~= seq!['\r', '\n']);
            }
            r
        } else {
            let r = String::from_str("\n");
            proof {
                reveal_strlit("\n");
                assert(r@ =~= seq!['\n']);
            }
            r
        }
    }

    /// The build command's usage line.
    pub fn usage(action: Option<Action>) -> (r: String)
        ensures
            r@ == "\tbuild\tBuild the current package"@,
    {
        String::from_str("\tbuild\tBuild the current package")
    }
}

/// Adds a dependency to, or removes one from, the configuration.
pub struct DepCommand {
    pub action: Action,
    pub dependency: String,
    pub config: Config,
}

impl DepCommand {
    /// Wraps the dependency name, the action, and the configuration
    /// it acts on.
    pub fn new(dependency: String, action: Action, config: Config) -> (r: Self)
        ensures
            r.dependency == dependency,
            r.action == action,
            r.config == config,
    {
        DepCommand { action, dependency, config }
    }

    /// The updated configuration: the dependency inserted (with no
    /// remote source) or removed, keyed by name; any other action is
    /// refused.
    pub fn apply(&self) -> (r: Result<Config, BargoError>)
        ensures
            match r {
                Ok(c) => {
                    &&& (self.action is DepAdd || self.action is DepRemove)
                    &&& c.package == self.config.package
                    &&& c.dependencies is Some
                    &&& (self.action is DepAdd ==> c.deps_view() == insert_entry(
                        self.config.deps_view(),
                        (self.dependency@, Option::<Seq<char>>::None),
                    ))
                    &&& (self.action is DepRemove ==> c.deps_view() == remove_entry(
                        self.config.deps_view(),
                        self.dependency@,
                    ))
                    &&& (self.config.wf() ==> c.wf())
                },
                Err(e) => {
                    &&& !(self.action is DepAdd)
                    &&& !(self.action is DepRemove)
                    &&& e.message@ == "Unknown action"@
                },
            },
    {
        let empty: Vec<Dependency> = Vec::new();
        let current: &Vec<Dependency> = match &self.config.dependencies {
            Some(d) => d,
            None => &empty,
        };
        proof {
            assert(crate::config::deps_entries(current@) =~= self.config.deps_view());
        }
        let updated: Vec<Dependency> = match self.action {
            Action::DepAdd => insert_dep(
                current,
                Dependency { name: self.dependency.clone(), url: None },
            ),
            Action::DepRemove => remove_dep(current, &self.dependency),
            _ => {
                return Err(BargoError::new("Unknown action"));
            },
        };
        let package = clone_package(&self.config.package);
        Ok(Config { package, dependencies: Some(updated) })
    }

    /// The dependency commands' usage lines.
    pub fn usage(action: Option<Action>) -> (r: String)
        ensures
            r@ == match action {
                Some(Action::DepAdd) => "\tadd\tAdd dependencies to this package"@,
                Some(Action::DepRemove) => "\tremove\tRemove dependencies from this package"@,
                _ => Seq::<char>::empty(),
            },
    {
        match action {
            Some(Action::DepAdd) => String::from_str("\tadd\tAdd dependencies to this package"),
            Some(Action::DepRemove) => String::from_str(
                "\tremove\tRemove dependencies from this package",
            ),
            _ => String::new(),
        }
    }
}

/// Copies a package table.
fn clone_package(p: &Package) -> (r: Package)
    ensures
        r == *p,
{
    let r = Package {
        name: p.name.clone(),
        carriage_return: p.carriage_return,
        numbering: p.numbering,
        emu_path: p.emu_path.clone(),
        version: p.version.clone(),
        width: p.width,
        labels: p.labels,
    };
    r
}

/// Removes the file a build generated.
pub struct CleanCommand {
    pub config: Config,
}

impl CleanCommand {
    /// Wraps the configuration naming the file to remove.
    pub fn new(config: Config) -> (r: Self)
        ensures
            r.config == config,
    {
        CleanCommand { config }
    }

    /// The generated file this command removes.
    pub fn output_path(&self) -> (r: String)
        ensures
            r@ == self.config.package.name@ + ".bas"@,
    {
        self.config.package.name.clone().concat(".bas")
    }

    /// The clean command's usage line.
    pub fn usage(action: Option<Action>) -> (r: String)
        ensures
            r@ == "\tclean\tRemove the generated file"@,
    {
        String::from_str("\tclean\tRemove the generated file")
    }
}

/// Runs the built package inside the emulator.
pub struct EmuCommand {
    pub config: Config,
}

impl EmuCommand {
    /// Wraps the configuration naming the emulator folder and the
    /// package.
    pub fn new(config: Config) -> (r: Self)
        ensures
            r.config == config,
    {
        EmuCommand { config }
    }

    /// The file the build output is copied to, inside the emulator's
    /// card image.
    pub fn sdcard_file(&self) -> (r: String)
        ensures
            r@ == "sdcard/"@ + self.config.package.name@ + ".bas"@,
    {
        String::from_str("sdcard/").concat(self.config.package.name.as_str()).concat(".bas")
    }

    /// The startup line written for the emulator, loading the built
    /// package.
    pub fn autoexec_line(&self) -> (r: String)
        ensures
            r@ == "bbcbasic /"@ + self.config.package.name@ + ".bas\r\n"@,
    {
        String::from_str("bbcbasic /").concat(self.config.package.name.as_str()).concat(
            ".bas\r\n",
        )
    }

    /// The name of the emulator's startup file.
    pub fn autoexec_file(&self) -> (r: String)
        ensures
            r@ == "autoexec.txt"@,
    {
        String::from_str("autoexec.txt")
    }

    /// The emulator command's usage line.
    pub fn usage(action: Option<Action>) -> (r: String)
        ensures
            r@ == "\temu\tRun the code inside an emulator"@,
    {
        String::from_str("\temu\tRun the code inside an emulator")
    }
}

/// Scaffolds a fresh package.
pub struct NewCommand {
    pub name: Option<String>,
}

impl NewCommand {
    /// Wraps the name of the package to create; no name means the
    /// current directory's.
    pub fn new(name: Option<String>) -> (r: Self)
        ensures
            r.name == name,
    {
        NewCommand { name }
    }

    /// The configuration a fresh package starts with: the defaults,
    /// under the given package name.
    pub fn initial_config(package_name: &String) -> (r: Config)
        ensures
            r.package.name@ == package_name@,
            r.package.carriage_return == true,
            r.package.numbering == 10usize,
            r.package.emu_path@ == "fab-agon-emulator"@,
            r.package.version@ == "0.1.0"@,
            r.package.width == 80usize,
            r.package.labels == true,
            r.dependencies is Some,
            r.deps_view() == Seq::<(Seq<char>, Option<Seq<char>>)>::empty(),
            r.wf(),
    {
        let mut config = Config::default();
        config.package.name = package_name.clone();
        proof {
            assert(config.deps_view() =~= Seq::<(Seq<char>, Option<Seq<char>>)>::empty());
        }
        config
    }

    /// The directory a package's sources live in, under the package
    /// directory.
    pub fn source_dir(name: &String) -> (r: String)
        ensures
            r@ == name@ + "/src"@,
    {
        name.clone().concat("/src")
    }

    /// The configuration file of the fresh package.
    pub fn config_path(name: &String) -> (r: String)
        ensures
            r@ == name@ + "/Bargo.toml"@,
    {
        name.clone().concat("/Bargo.toml")
    }

    /// The main source file of the fresh package.
    pub fn main_path(name: &String) -> (r: String)
        ensures
            r@ == name@ + "/src/main.bas"@,
    {
        name.clone().concat("/src/main.bas")
    }

    /// The one statement a fresh package's main file starts with.
    pub fn hello_line() -> (r: String)
        ensures
            r@ == "PRINT \"Hello World!\""@,
    {
        String::from_str("PRINT \"Hello World!\"")
    }

    /// The scaffolding commands' usage lines.
    pub fn usage(action: Option<Action>) -> (r: String)
        ensures
            r@ == match action {
                Some(Action::New) => "\tnew\tCreate a new Bargo package"@,
                Some(Action::Init) => "\tinit\tCreate a new Bargo package in an existing directory"@,
                _ => Seq::<char>::empty(),
            },
    {
        match action {
            Some(Action::New) => String::from_str("\tnew\tCreate a new Bargo package"),
            Some(Action::Init) => String::from_str(
                "\tinit\tCreate a new Bargo package in an existing directory",
            ),
            _ => String::new(),
        }
    }
}

} // verus!
