/// Character-level string utilities shared by the text handling.
pub mod chars;
/// The inputs of the five operations, as the surface hands them over.
pub mod cli;
/// The canonical text form of a record: encoder, decoder, round trip.
pub mod codec;
/// The lifecycle engine: save, rename, remove, list, execute.
pub mod commands;
/// The errors the engine reports.
pub mod error;
/// The confirmation gate's two answer policies.
pub mod gate;
/// Reading the emulator's version out of its report.
pub mod qemu;
/// The configuration record and its validation.
pub mod record;
/// Resolving the configuration root and a record's path.
pub mod storage;
/// The ordered key-value store the engine works over.
pub mod store;
/// Parameter substitution against an environment.
pub mod subst;

use vstd::prelude::*;

use crate::cli::Vex;
use crate::commands::{
    exec_command, exec_result, list_command, listing_from, listing_view, remove_command,
    remove_transition, rename_command, rename_transition, save_command, save_transition, ExecPlan,
    RenameOutcome, SaveOutcome,
};
use crate::error::VexError;
use crate::record::QemuConfig;
use crate::store::Store;

verus! {

/// What one operation produced, for the surface to report.
#[derive(Debug)]
pub enum RunOutcome {
    Save(SaveOutcome),
    Rename(RenameOutcome),
    Removed,
    Listing(Vec<(String, QemuConfig)>),
    Exec(ExecPlan),
}

/// Dispatches one parsed operation to the engine, over the given
/// store and environment. The two confirmation answers are the
/// gates' verdicts, consulted only where the operation calls for
/// them: `strip_confirmed` for save's debug-marker prompt,
/// `overwrite_confirmed` for the overwrite prompts of save and
/// rename.
pub fn run(
    cmd: Vex,
    store: &mut Store,
    env: &Store,
    strip_confirmed: bool,
    overwrite_confirmed: bool,
) -> (r: Result<RunOutcome, VexError>)
    requires
        old(store).wf(),
        env.wf(),
    ensures
        final(store).wf(),
        match cmd {
            Vex::Save(a) => (r matches Ok(out) && out matches RunOutcome::Save(o)
                && save_transition(
                old(store)@,
                final(store)@,
                a.force,
                a.name@,
                a.desc.deep_view(),
                a.qemu_bin@,
                a.qemu_args.deep_view(),
                strip_confirmed,
                overwrite_confirmed,
                o,
            )),
            Vex::Rename(a) => (match r {
                Ok(out) => out matches RunOutcome::Rename(o) && rename_transition(
                    old(store)@,
                    final(store)@,
                    a.desc.deep_view(),
                    a.force,
                    a.old_name@,
                    a.new_name@,
                    overwrite_confirmed,
                    Ok(o),
                ),
                Err(e) => rename_transition(
                    old(store)@,
                    final(store)@,
                    a.desc.deep_view(),
                    a.force,
                    a.old_name@,
                    a.new_name@,
                    overwrite_confirmed,
                    Err(e),
                ),
            }),
            Vex::Rm(a) => (match r {
                Ok(out) => out is Removed && remove_transition(
                    old(store)@,
                    final(store)@,
                    a.name@,
                    Ok(()),
                ),
                Err(e) => remove_transition(old(store)@, final(store)@, a.name@, Err(e)),
            }),
            Vex::List(_) => (r matches Ok(out) && out matches RunOutcome::Listing(l)
                && listing_view(l@) == listing_from(old(store).pairs(), 0) && final(store)@ == old(
                store,
            )@ && final(store).pairs() == old(store).pairs()),
            Vex::Exec(a) => (match r {
                Ok(out) => out matches RunOutcome::Exec(plan) && exec_result(
                    old(store)@,
                    a.name@,
                    a.debug,
                    env@,
                    Ok(plan),
                ) && final(store)@ == old(store)@ && final(store).pairs() == old(store).pairs(),
                Err(e) => exec_result(old(store)@, a.name@, a.debug, env@, Err(e))
                    && final(store)@ == old(store)@ && final(store).pairs() == old(store).pairs(),
            }),
        },
{
    match cmd {
        Vex::Save(a) => {
            let o = save_command(
                store,
                a.force,
                a.name,
                a.desc,
                a.qemu_bin,
                a.qemu_args,
                strip_confirmed,
                overwrite_confirmed,
            );
            Ok(RunOutcome::Save(o))
        },
        Vex::Rename(a) => {
            match rename_command(
                store,
                a.desc,
                a.force,
                a.old_name,
                a.new_name,
                overwrite_confirmed,
            ) {
                Ok(o) => Ok(RunOutcome::Rename(o)),
                Err(e) => Err(e),
            }
        },
        Vex::Rm(a) => {
            match remove_command(store, a.name) {
                Ok(_) => Ok(RunOutcome::Removed),
                Err(e) => Err(e),
            }
        },
        Vex::List(_) => Ok(RunOutcome::Listing(list_command(store))),
        Vex::Exec(a) => {
            match exec_command(store, a.name, a.debug, env) {
                Ok(plan) => Ok(RunOutcome::Exec(plan)),
                Err(e) => Err(e),
            }
        },
    }
}

} // verus!
