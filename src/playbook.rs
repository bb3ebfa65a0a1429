//! Plays and tasks, as values. Reading them from YAML happens outside the
//! library, which receives them already parsed.
use vstd::prelude::*;
use crate::vars::StrMap;

verus! {

/// A leaf value inside a module's argument mapping.
#[derive(Debug, Clone)]
pub enum ArgValue {
    Text(String),
    Flag(bool),
    /// A number, a list, a mapping or null: not passed on to the module.
    Other,
}

/// The value given to a module key: a scalar string, or a mapping of
/// arguments (in their written order), or something else.
#[derive(Debug, Clone)]
pub enum ModuleValue {
    Text(String),
    Mapping(Vec<(String, ArgValue)>),
    Other,
}

/// One task: control fields and the keys that may select a module.
#[derive(Debug, Clone)]
pub struct Task {
    pub name: Option<String>,
    pub when: Option<String>,
    pub register: Option<String>,
    pub notify: Option<Vec<String>>,
    pub tags: Vec<String>,
    /// The task's other keys, in their written order.
    pub module: Vec<(String, ModuleValue)>,
}

/// One play: the target pattern, the tasks, the handlers and the play's variables.
#[derive(Debug, Clone)]
pub struct Play {
    pub hosts: String,
    pub name: Option<String>,
    pub tasks: Vec<Task>,
    pub handlers: Vec<Task>,
    /// The play variables whose values are strings.
    pub vars: StrMap,
    pub vars_files: Vec<String>,
    pub become_: bool,
    pub become_user: Option<String>,
}

} // verus!
