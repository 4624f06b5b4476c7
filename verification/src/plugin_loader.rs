//! The host's rules for locating and loading a filter module.

use vstd::prelude::*;
use vstd::string::StringExecFns;

verus! {

/// The platforms that name their modules differently.
#[derive(Clone, Copy, Debug, PartialEq, Eq, Structural)]
pub enum Platform {
    /// Windows: `<name>.dll`.
    Windows,
    /// macOS: `lib<name>.dylib`.
    MacOs,
    /// Every other platform: `lib<name>.so`.
    Other,
}

/// The file name under which a platform keeps the module `plugin_name`.
pub open spec fn module_file_name(plugin_name: Seq<char>, platform: Platform) -> Seq<char> {
    match platform {
        Platform::Windows => plugin_name + ".dll"@,
        Platform::MacOs => "lib"@ + plugin_name + ".dylib"@,
        Platform::Other => "lib"@ + plugin_name + ".so"@,
    }
}

/// Gives the file name of the module `plugin_name` on the given platform.
pub fn lib_filename(plugin_name: &str, platform: Platform) -> (name: String)
    ensures
        name@ == module_file_name(plugin_name@, platform),
{
    match platform {
        Platform::Windows => {
            let mut name = String::from_str(plugin_name);
            name.append(".dll");
            name
        },
        Platform::MacOs => {
            let mut name = String::from_str("lib");
            name.append(plugin_name);
            name.append(".dylib");
            name
        },
        Platform::Other => {
            let mut name = String::from_str("lib");
            name.append(plugin_name);
            name.append(".so");
            name
        },
    }
}

/// The filters that are compiled into the host and need no module file.
#[derive(Clone, Copy, Debug, PartialEq, Eq, Structural)]
pub enum Builtin {
    /// The blur filter, under the name `blur_plugin`.
    Blur,
    /// The mirror filter, under the name `mirror_plugin`.
    Mirror,
}

/// The compiled-in filter that a name stands for, if it stands for one.
pub open spec fn builtin_named(name: Seq<char>) -> Option<Builtin> {
    if name == "blur_plugin"@ {
        Some(Builtin::Blur)
    } else if name == "mirror_plugin"@ {
        Some(Builtin::Mirror)
    } else {
        None
    }
}

/// Looks a compiled-in filter up by its name.
pub fn builtin(name: &str) -> (filter: Option<Builtin>)
    ensures
        filter == builtin_named(name@),
{
    let wanted = String::from_str(name);
    if wanted == String::from_str("blur_plugin") {
        Some(Builtin::Blur)
    } else if wanted == String::from_str("mirror_plugin") {
        Some(Builtin::Mirror)
    } else {
        None
    }
}

/// Why a module could not be loaded.
#[derive(Clone, Copy, Debug, PartialEq, Eq, Structural)]
pub enum LoadError {
    /// No file exists at the module's path.
    ModuleNotFound,
    /// The module was opened, but lacks the entry point.
    SymbolResolutionError,
    /// The platform could not open the module.
    LoadFailed,
}

/// The steps of loading a module, in their order.
#[derive(Clone, Copy, Debug, PartialEq, Eq, Structural)]
pub enum LoadStep {
    /// Ask whether a file exists at the module's path.
    ProbePath,
    /// Ask the platform to open the module.
    OpenModule,
    /// Look the entry point up in the opened module.
    ResolveSymbol,
}

/// How far the loading of a module has come.
#[derive(Clone, Copy, Debug, PartialEq, Eq, Structural)]
pub enum LoaderState {
    /// Nothing was done yet.
    Start,
    /// A file exists at the module's path.
    Found,
    /// The module is open.
    Opened,
    /// The entry point is bound: the filter may be invoked.
    Ready,
    /// A step failed. No further step is taken, and the filter is never invoked.
    Failed(LoadError),
}

impl LoaderState {
    /// The step that is due in this state, if any.
    pub open spec fn spec_next_step(self) -> Option<LoadStep> {
        match self {
            LoaderState::Start => Some(LoadStep::ProbePath),
            LoaderState::Found => Some(LoadStep::OpenModule),
            LoaderState::Opened => Some(LoadStep::ResolveSymbol),
            LoaderState::Ready => None,
            LoaderState::Failed(_) => None,
        }
    }

    /// The state after the step that was due has succeeded or failed.
    pub open spec fn spec_advance(self, succeeded: bool) -> LoaderState {
        match self {
            LoaderState::Start => if succeeded {
                LoaderState::Found
            } else {
                LoaderState::Failed(LoadError::ModuleNotFound)
            },
            LoaderState::Found => if succeeded {
                LoaderState::Opened
            } else {
                LoaderState::Failed(LoadError::LoadFailed)
            },
            LoaderState::Opened => if succeeded {
                LoaderState::Ready
            } else {
                LoaderState::Failed(LoadError::SymbolResolutionError)
            },
            LoaderState::Ready => LoaderState::Ready,
            LoaderState::Failed(e) => LoaderState::Failed(e),
        }
    }

    /// The state in which loading begins.
    pub fn new() -> (state: LoaderState)
        ensures
            state == LoaderState::Start,
    {
        LoaderState::Start
    }

    /// The step that the host has to take next; `None` once loading has ended.
    pub fn next_step(self) -> (step: Option<LoadStep>)
        ensures
            step == self.spec_next_step(),
    {
        match self {
            LoaderState::Start => Some(LoadStep::ProbePath),
            LoaderState::Found => Some(LoadStep::OpenModule),
            LoaderState::Opened => Some(LoadStep::ResolveSymbol),
            LoaderState::Ready => None,
            LoaderState::Failed(_) => None,
        }
    }

    /// Takes in how the step that was due has ended.
    pub fn advance(self, succeeded: bool) -> (next: LoaderState)
        ensures
            next == self.spec_advance(succeeded),
    {
        match self {
            LoaderState::Start => if succeeded {
                LoaderState::Found
            } else {
                LoaderState::Failed(LoadError::ModuleNotFound)
            },
            LoaderState::Found => if succeeded {
                LoaderState::Opened
            } else {
                LoaderState::Failed(LoadError::LoadFailed)
            },
            LoaderState::Opened => if succeeded {
                LoaderState::Ready
            } else {
                LoaderState::Failed(LoadError::SymbolResolutionError)
            },
            LoaderState::Ready => LoaderState::Ready,
            LoaderState::Failed(e) => LoaderState::Failed(e),
        }
    }

    /// Whether the filter may be invoked: only once the entry point is bound.
    pub fn may_invoke(self) -> (ok: bool)
        ensures
            ok == (self == LoaderState::Ready),
    {
        match self {
            LoaderState::Ready => true,
            _ => false,
        }
    }

    /// The error with which loading has ended, if it has failed.
    pub fn error(self) -> (e: Option<LoadError>)
        ensures
            e == match self {
                LoaderState::Failed(err) => Some(err),
                _ => None::<LoadError>,
            },
    {
        match self {
            LoaderState::Failed(err) => Some(err),
            _ => None,
        }
    }
}

/// The state after the three steps have ended as given, each taken only if
/// the one before has succeeded.
pub open spec fn load_outcome(path_exists: bool, opened: bool, resolved: bool) -> LoaderState {
    LoaderState::Start.spec_advance(path_exists).spec_advance(opened).spec_advance(resolved)
}

/// The filter may be invoked only after the path was found, the module opened
/// and the entry point resolved; a module whose file is missing is reported as
/// not found, whatever the later steps would have given.
pub proof fn lemma_load_outcome(path_exists: bool, opened: bool, resolved: bool)
    ensures
        load_outcome(path_exists, opened, resolved) == LoaderState::Ready <==> path_exists
            && opened && resolved,
        !path_exists ==> load_outcome(path_exists, opened, resolved) == LoaderState::Failed(
            LoadError::ModuleNotFound,
        ),
        path_exists && !opened ==> load_outcome(path_exists, opened, resolved)
            == LoaderState::Failed(LoadError::LoadFailed),
        path_exists && opened && !resolved ==> load_outcome(path_exists, opened, resolved)
            == LoaderState::Failed(LoadError::SymbolResolutionError),
{
}

/// A failure is final: no later event changes it, and no step follows it.
pub proof fn lemma_failure_is_final(e: LoadError, succeeded: bool)
    ensures
        LoaderState::Failed(e).spec_advance(succeeded) == LoaderState::Failed(e),
        LoaderState::Failed(e).spec_next_step() is None,
{
}

} // verus!
