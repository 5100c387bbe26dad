use vex::cli::{ExecArgs, ListArgs, RemoveArgs, RenameArgs, SaveArgs, Vex};
use vex::codec::{decode_config, encode_config};
use vex::commands::{
    exec_command, execution_outcome, list_command, remove_command, rename_command, save_command,
    save_needs_overwrite_prompt, save_needs_strip_prompt, RenameOutcome, SaveOutcome,
};
use vex::error::VexError;
use vex::record::QemuConfig;
use vex::run;
use vex::store::Store;
use vex::RunOutcome;

fn strings(items: &[&str]) -> Vec<String> {
    items.iter().map(|s| s.to_string()).collect()
}

fn save_plain(store: &mut Store, name: &str, bin: &str, args: &[&str], desc: Option<&str>) {
    let o = save_command(
        store,
        true,
        name.to_string(),
        desc.map(|s| s.to_string()),
        bin.to_string(),
        strings(args),
        false,
        false,
    );
    assert!(matches!(o, SaveOutcome::Saved));
}

#[test]
fn save_then_exec_uses_stored_record() {
    let mut store = Store::new();
    let env = Store::new();
    save_plain(&mut store, "vm", "qemu-system-x86_64", &["-m", "2048"], None);
    let plan = exec_command(&store, "vm".to_string(), false, &env).unwrap();
    assert_eq!(plan.qemu_bin, "qemu-system-x86_64");
    assert_eq!(plan.args, vec!["-m", "2048"]);
}

#[test]
fn save_overwrite_gate_keeps_record_untouched() {
    let mut store = Store::new();
    save_plain(&mut store, "vm", "qemu", &["-m", "1024"], Some("original"));
    let before = store.get(&"vm".to_string()).unwrap().clone();
    let o = save_command(
        &mut store,
        false,
        "vm".to_string(),
        Some("replacement".to_string()),
        "other".to_string(),
        strings(&["-m", "4096"]),
        false,
        false, // the simulated negative answer to the overwrite prompt
    );
    assert!(matches!(o, SaveOutcome::Cancelled));
    let after = store.get(&"vm".to_string()).unwrap();
    assert_eq!(*after, before, "the stored record must stay byte-for-byte unchanged");
}

#[test]
fn save_overwrite_gate_affirmative_replaces() {
    let mut store = Store::new();
    save_plain(&mut store, "vm", "qemu", &[], None);
    let o = save_command(
        &mut store,
        false,
        "vm".to_string(),
        None,
        "other".to_string(),
        strings(&[]),
        false,
        true, // the simulated affirmative answer
    );
    assert!(matches!(o, SaveOutcome::Saved));
    let c = decode_config(store.get(&"vm".to_string()).unwrap()).unwrap();
    assert_eq!(c.qemu_bin, "other");
}

#[test]
fn debug_strip_gate_drops_both_markers() {
    let mut store = Store::new();
    let args = strings(&["-hda", "disk.img", "-s", "-S"]);
    assert!(save_needs_strip_prompt(&args));
    let o = save_command(
        &mut store,
        true,
        "vm".to_string(),
        None,
        "qemu".to_string(),
        args,
        true, // the simulated affirmative answer to the strip prompt
        false,
    );
    assert!(matches!(o, SaveOutcome::Saved));
    let c = decode_config(store.get(&"vm".to_string()).unwrap()).unwrap();
    assert_eq!(c.args, vec!["-hda", "disk.img"]);
}

#[test]
fn debug_strip_gate_declined_keeps_markers() {
    let mut store = Store::new();
    let o = save_command(
        &mut store,
        true,
        "vm".to_string(),
        None,
        "qemu".to_string(),
        strings(&["-hda", "disk.img", "-s", "-S"]),
        false, // the simulated negative answer to the strip prompt
        false,
    );
    assert!(matches!(o, SaveOutcome::Saved));
    let c = decode_config(store.get(&"vm".to_string()).unwrap()).unwrap();
    assert_eq!(c.args, vec!["-hda", "disk.img", "-s", "-S"]);
}

#[test]
fn rename_then_exec_moves_the_record() {
    let mut store = Store::new();
    let env = Store::new();
    save_plain(&mut store, "A", "echo", &["hi"], None);
    let r = rename_command(&mut store, None, false, "A".to_string(), "B".to_string(), false);
    assert!(matches!(r, Ok(RenameOutcome::Renamed)));
    let listing = list_command(&store);
    let names: Vec<&str> = listing.iter().map(|(n, _)| n.as_str()).collect();
    assert_eq!(names, vec!["B"], "only the new name may be listed");
    let plan = exec_command(&store, "B".to_string(), false, &env).unwrap();
    assert_eq!(plan.qemu_bin, "echo");
    assert_eq!(plan.args, vec!["hi"]);
    assert!(execution_outcome(true, true, Some(0)).is_ok());
}

#[test]
fn rename_updates_description_when_supplied() {
    let mut store = Store::new();
    save_plain(&mut store, "A", "qemu", &[], Some("old text"));
    let r = rename_command(
        &mut store,
        Some("new text".to_string()),
        false,
        "A".to_string(),
        "B".to_string(),
        false,
    );
    assert!(matches!(r, Ok(RenameOutcome::Renamed)));
    let c = decode_config(store.get(&"B".to_string()).unwrap()).unwrap();
    assert_eq!(c.desc.as_deref(), Some("new text"));
}

#[test]
fn rename_overwrite_gate_cancels_cleanly() {
    let mut store = Store::new();
    save_plain(&mut store, "A", "qemu-a", &[], None);
    save_plain(&mut store, "B", "qemu-b", &[], None);
    let before_b = store.get(&"B".to_string()).unwrap().clone();
    let r = rename_command(&mut store, None, false, "A".to_string(), "B".to_string(), false);
    assert!(matches!(r, Ok(RenameOutcome::Cancelled)));
    assert!(store.get(&"A".to_string()).is_some(), "nothing may be touched");
    assert_eq!(*store.get(&"B".to_string()).unwrap(), before_b);
}

#[test]
fn debug_exec_appends_exactly_the_two_markers() {
    let mut store = Store::new();
    let env = Store::new();
    save_plain(&mut store, "vm", "qemu", &["-hda", "disk.img"], None);
    let before = store.get(&"vm".to_string()).unwrap().clone();
    let plan = exec_command(&store, "vm".to_string(), true, &env).unwrap();
    assert_eq!(plan.args, vec!["-hda", "disk.img", "-s", "-S"]);
    assert_eq!(
        *store.get(&"vm".to_string()).unwrap(),
        before,
        "execution must not mutate the persisted record"
    );
}

#[test]
fn exec_substitutes_parameters_at_execution_time() {
    let mut store = Store::new();
    let mut env = Store::new();
    env.set("DISK".to_string(), "/images/root.img".to_string());
    save_plain(&mut store, "vm", "qemu", &["-hda", "${DISK}"], None);
    let plan = exec_command(&store, "vm".to_string(), false, &env).unwrap();
    assert_eq!(plan.args, vec!["-hda", "/images/root.img"]);
}

#[test]
fn not_found_behavior_performs_no_writes() {
    let mut store = Store::new();
    let env = Store::new();
    save_plain(&mut store, "kept", "qemu", &[], None);
    let before = store.get(&"kept".to_string()).unwrap().clone();

    let e = exec_command(&store, "ghostly".to_string(), false, &env).unwrap_err();
    assert!(matches!(e, VexError::ConfigNotFound(ref n) if n == "ghostly"));

    let e = remove_command(&mut store, "ghostly".to_string()).unwrap_err();
    assert!(matches!(e, VexError::ConfigNotFound(ref n) if n == "ghostly"));

    let e = rename_command(&mut store, None, false, "ghostly".to_string(), "new".to_string(), false)
        .unwrap_err();
    assert!(matches!(e, VexError::ConfigNotFound(ref n) if n == "ghostly"));

    assert_eq!(store.len(), 1);
    assert_eq!(*store.get(&"kept".to_string()).unwrap(), before);
    assert!(store.get(&"new".to_string()).is_none());
}

#[test]
fn remove_deletes_exactly_one_record() {
    let mut store = Store::new();
    save_plain(&mut store, "a", "qemu", &[], None);
    save_plain(&mut store, "b", "qemu", &[], None);
    assert!(remove_command(&mut store, "a".to_string()).is_ok());
    assert!(store.get(&"a".to_string()).is_none());
    assert!(store.get(&"b".to_string()).is_some());
    assert_eq!(store.len(), 1);
}

#[test]
fn list_skips_undecodable_entries() {
    let mut store = Store::new();
    save_plain(&mut store, "good", "qemu", &["-m", "512"], Some("fine"));
    store.set("corrupt".to_string(), "not a record at all".to_string());
    let listing = list_command(&store);
    assert_eq!(listing.len(), 1);
    assert_eq!(listing[0].0, "good");
    assert_eq!(listing[0].1.qemu_bin, "qemu");
    assert_eq!(listing[0].1.desc.as_deref(), Some("fine"));
}

#[test]
fn list_twice_yields_the_same_listing() {
    let mut store = Store::new();
    save_plain(&mut store, "one", "qemu", &["-m", "1"], None);
    save_plain(&mut store, "two", "qemu", &["-m", "2"], Some("second"));
    let first = list_command(&store);
    let second = list_command(&store);
    let as_pairs = |l: &Vec<(String, QemuConfig)>| {
        l.iter()
            .map(|(n, c)| (n.clone(), encode_config(c)))
            .collect::<Vec<_>>()
    };
    assert_eq!(as_pairs(&first), as_pairs(&second));
}

#[test]
fn execution_outcome_reports_exit_codes() {
    assert!(execution_outcome(true, true, Some(0)).is_ok());
    assert!(matches!(
        execution_outcome(true, false, Some(3)),
        Err(VexError::ExecutionFailed(3))
    ));
    assert!(matches!(
        execution_outcome(true, false, None),
        Err(VexError::ExecutionFailed(-1))
    ));
    assert!(matches!(
        execution_outcome(false, false, None),
        Err(VexError::ExecutionFailed(-1))
    ));
}

#[test]
fn overwrite_prompt_needed_only_without_force() {
    let mut store = Store::new();
    save_plain(&mut store, "vm", "qemu", &[], None);
    assert!(save_needs_overwrite_prompt(&store, &"vm".to_string(), false));
    assert!(!save_needs_overwrite_prompt(&store, &"vm".to_string(), true));
    assert!(!save_needs_overwrite_prompt(&store, &"fresh".to_string(), false));
}

#[test]
fn run_dispatches_each_operation() {
    let mut store = Store::new();
    let env = Store::new();
    let save = Vex::Save(SaveArgs {
        name: "vm".to_string(),
        qemu_bin: "qemu".to_string(),
        qemu_args: strings(&["-m", "256"]),
        desc: None,
        force: false,
    });
    assert!(matches!(
        run(save, &mut store, &env, false, false),
        Ok(RunOutcome::Save(SaveOutcome::Saved))
    ));
    let listing = match run(Vex::List(ListArgs), &mut store, &env, false, false) {
        Ok(RunOutcome::Listing(l)) => l,
        other => panic!("unexpected outcome: {:?}", other.is_ok()),
    };
    assert_eq!(listing.len(), 1);
    let rename = Vex::Rename(RenameArgs {
        old_name: "vm".to_string(),
        new_name: "vm2".to_string(),
        desc: None,
        force: false,
    });
    assert!(matches!(
        run(rename, &mut store, &env, false, false),
        Ok(RunOutcome::Rename(RenameOutcome::Renamed))
    ));
    let exec = Vex::Exec(ExecArgs { name: "vm2".to_string(), debug: true });
    let plan = match run(exec, &mut store, &env, false, false) {
        Ok(RunOutcome::Exec(p)) => p,
        _ => panic!("exec must succeed"),
    };
    assert_eq!(plan.args, vec!["-m", "256", "-s", "-S"]);
    assert!(matches!(
        run(Vex::Rm(RemoveArgs { name: "vm2".to_string() }), &mut store, &env, false, false),
        Ok(RunOutcome::Removed)
    ));
    assert_eq!(store.len(), 0);
}
