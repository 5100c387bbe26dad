use vstd::prelude::*;

verus! {

/// Inputs of the save operation.
pub struct SaveArgs {
    pub name: String,
    pub qemu_bin: String,
    pub qemu_args: Vec<String>,
    pub desc: Option<String>,
    pub force: bool,
}

/// Inputs of the rename operation.
pub struct RenameArgs {
    pub old_name: String,
    pub new_name: String,
    pub desc: Option<String>,
    pub force: bool,
}

/// Inputs of the remove operation.
pub struct RemoveArgs {
    pub name: String,
}

/// Inputs of the list operation: none.
pub struct ListArgs;

/// Inputs of the execute operation.
pub struct ExecArgs {
    pub name: String,
    pub debug: bool,
}

/// One user-issued operation.
pub enum Vex {
    Save(SaveArgs),
    Rename(RenameArgs),
    Rm(RemoveArgs),
    List(ListArgs),
    Exec(ExecArgs),
}

/// The same operations, as the command surface groups them.
pub enum Commands {
    Save(SaveArgs),
    Rename(RenameArgs),
    Rm(RemoveArgs),
    List(ListArgs),
    Exec(ExecArgs),
}

/// A whole invocation: one subcommand.
pub struct Cli {
    pub command: Commands,
}

} // verus!
