use vstd::prelude::*;

use crate::codec::{decode_config, decode_spec, encode_config, encode_spec};
use crate::error::VexError;
use crate::record::{ConfigView, QemuConfig};
use crate::store::Store;
use crate::subst::{subst_all, substitute_params};

verus! {

/// What a save attempt did.
#[derive(Debug)]
pub enum SaveOutcome {
    Saved,
    Cancelled,
}

/// What a rename attempt did.
#[derive(Debug)]
pub enum RenameOutcome {
    Renamed,
    Cancelled,
}

/// The process invocation an execute operation asks for.
#[derive(Debug)]
pub struct ExecPlan {
    pub qemu_bin: String,
    pub args: Vec<String>,
}

/// Whether two strings are the same text.
pub fn str_eq(a: &str, b: &str) -> (r: bool)
    ensures
        r == (a@ == b@),
{
    let n = a.unicode_len();
    if n != b.unicode_len() {
        return false;
    }
    let mut i: usize = 0;
    while i < n
        invariant
            n == a@.len(),
            n == b@.len(),
            i <= n,
            forall|t: int| 0 <= t < i ==> a@[t] == b@[t],
        decreases n - i,
    {
        if a.get_char(i) != b.get_char(i) {
            return false;
        }
        i = i + 1;
    }
    proof {
        assert(a@ =~= b@);
    }
    true
}

/// Whether an argument is one of the two debug marker tokens that
/// switch on the emulator's remote-debug server.
pub open spec fn is_debug_marker(a: Seq<char>) -> bool {
    a == "-s"@ || a == "-S"@
}

/// Whether any argument is a debug marker.
pub open spec fn has_debug_marker(args: Seq<Seq<char>>) -> bool {
    exists|k: int| 0 <= k < args.len() && is_debug_marker(#[trigger] args[k])
}

/// The arguments from `i` on with every debug marker dropped.
pub open spec fn strip_debug_from(args: Seq<Seq<char>>, i: int) -> Seq<Seq<char>>
    decreases args.len() - i,
{
    if i < 0 || i >= args.len() {
        Seq::empty()
    } else if is_debug_marker(args[i]) {
        strip_debug_from(args, i + 1)
    } else {
        seq![args[i]] + strip_debug_from(args, i + 1)
    }
}

/// The arguments with every debug marker dropped.
pub open spec fn strip_debug(args: Seq<Seq<char>>) -> Seq<Seq<char>> {
    strip_debug_from(args, 0)
}

proof fn lemma_strip_from_removes_markers(args: Seq<Seq<char>>, i: int)
    requires
        0 <= i,
    ensures
        forall|k: int|
            0 <= k < strip_debug_from(args, i).len() ==> !is_debug_marker(
                #[trigger] strip_debug_from(args, i)[k],
            ),
    decreases args.len() - i,
{
    if i < args.len() {
        lemma_strip_from_removes_markers(args, i + 1);
        if !is_debug_marker(args[i]) {
            let s = strip_debug_from(args, i);
            assert(s == seq![args[i]] + strip_debug_from(args, i + 1));
            assert forall|k: int| 0 <= k < s.len() implies !is_debug_marker(#[trigger] s[k]) by {
                if k == 0 {
                    assert(s[0] == args[i]);
                } else {
                    assert(s[k] == strip_debug_from(args, i + 1)[k - 1]);
                }
            }
        }
    }
}

/// Stripping leaves no debug marker behind: no argument of the
/// stripped vector is one of the two marker tokens.
pub proof fn lemma_strip_removes_markers(args: Seq<Seq<char>>)
    ensures
        forall|k: int|
            0 <= k < strip_debug(args).len() ==> !is_debug_marker(#[trigger] strip_debug(args)[k]),
{
    lemma_strip_from_removes_markers(args, 0);
}

fn is_debug_marker_exec(a: &str) -> (r: bool)
    ensures
        r == is_debug_marker(a@),
{
    str_eq(a, "-s") || str_eq(a, "-S")
}

/// Whether the arguments contain a debug marker, so that saving
/// should first offer to strip them.
pub fn save_needs_strip_prompt(args: &Vec<String>) -> (r: bool)
    ensures
        r == has_debug_marker(args.deep_view()),
{
    let n = args.len();
    let mut i: usize = 0;
    while i < n
        invariant
            n == args.len(),
            i <= n,
            forall|t: int| 0 <= t < i ==> !is_debug_marker(#[trigger] args.deep_view()[t]),
        decreases n - i,
    {
        if is_debug_marker_exec(args[i].as_str()) {
            proof {
                assert(is_debug_marker(args.deep_view()[i as int]));
            }
            return true;
        }
        i = i + 1;
    }
    false
}

fn strip_debug_exec(args: &Vec<String>) -> (r: Vec<String>)
    ensures
        r.deep_view() == strip_debug(args.deep_view()),
{
    let ghost va = args.deep_view();
    let mut r: Vec<String> = Vec::new();
    let n = args.len();
    let mut i: usize = 0;
    while i < n
        invariant
            n == args.len(),
            va == args.deep_view(),
            i <= n,
            r.deep_view() + strip_debug_from(va, i as int) == strip_debug_from(va, 0),
        decreases n - i,
    {
        if !is_debug_marker_exec(args[i].as_str()) {
            let ghost prev = r.deep_view();
            let ghost prevv = r@;
            let item = args[i].clone();
            let ghost gitem = item@;
            r.push(item);
            proof {
                assert(gitem == va[i as int]);
                assert(r.deep_view() =~= prev.push(va[i as int])) by {
                    assert forall|t: int| 0 <= t < r@.len() implies r.deep_view()[t] == prev.push(
                        va[i as int],
                    )[t] by {
                        if t < prevv.len() {
                            assert(r@[t] == prevv[t]);
                        } else {
                            assert(r@[t]@ == gitem);
                        }
                    }
                }
                assert(strip_debug_from(va, i as int) == seq![va[i as int]] + strip_debug_from(
                    va,
                    i as int + 1,
                ));
                assert(prev.push(va[i as int]) + strip_debug_from(va, i as int + 1) =~= prev + (
                seq![va[i as int]] + strip_debug_from(va, i as int + 1)));
            }
        }
        i = i + 1;
    }
    proof {
        assert(strip_debug_from(va, n as int) == Seq::<Seq<char>>::empty());
        assert(r.deep_view() + Seq::<Seq<char>>::empty() =~= r.deep_view());
    }
    r
}


/// The record a save operation persists: the given fields, with the
/// debug markers stripped exactly when they occur and their
/// stripping was confirmed.
pub open spec fn save_record(
    qemu_bin: Seq<char>,
    args: Seq<Seq<char>>,
    desc: Option<Seq<char>>,
    strip_confirmed: bool,
) -> ConfigView {
    ConfigView {
        qemu_bin: qemu_bin,
        args: if has_debug_marker(args) && strip_confirmed {
            strip_debug(args)
        } else {
            args
        },
        desc: desc,
    }
}

/// What a save does to the store, and what it reports: nothing on a
/// refused overwrite, else the encoded record put at the name.
pub open spec fn save_transition(
    pre: Map<Seq<char>, Seq<char>>,
    post: Map<Seq<char>, Seq<char>>,
    force: bool,
    name: Seq<char>,
    desc: Option<Seq<char>>,
    qemu_bin: Seq<char>,
    args: Seq<Seq<char>>,
    strip_confirmed: bool,
    overwrite_confirmed: bool,
    r: SaveOutcome,
) -> bool {
    let rec = save_record(qemu_bin, args, desc, strip_confirmed);
    if pre.contains_key(name) && !force && !overwrite_confirmed {
        r is Cancelled && post == pre
    } else {
        r is Saved && post == pre.insert(name, encode_spec(rec))
    }
}

/// Whether saving under `name` must first ask before overwriting.
pub fn save_needs_overwrite_prompt(store: &Store, name: &String, force: bool) -> (r: bool)
    requires
        store.wf(),
    ensures
        r == (store@.contains_key(name@) && !force),
{
    store.contains(name) && !force
}

/// Saves a configuration under `name`.
///
/// When the arguments carry a debug marker and `strip_confirmed`
/// holds (the default-yes gate's answer), the markers are stripped
/// before persisting. When a record of that name exists, `force` is
/// clear and `overwrite_confirmed` (the default-no gate's answer)
/// is clear too, nothing is written and the save reports itself
/// cancelled; otherwise the encoded record replaces whatever was
/// stored under the name.
pub fn save_command(
    store: &mut Store,
    force: bool,
    name: String,
    desc: Option<String>,
    qemu_bin: String,
    qemu_args: Vec<String>,
    strip_confirmed: bool,
    overwrite_confirmed: bool,
) -> (r: SaveOutcome)
    requires
        old(store).wf(),
    ensures
        final(store).wf(),
        save_transition(
            old(store)@,
            final(store)@,
            force,
            name@,
            desc.deep_view(),
            qemu_bin@,
            qemu_args.deep_view(),
            strip_confirmed,
            overwrite_confirmed,
            r,
        ),
        r is Cancelled ==> final(store).pairs() == old(store).pairs(),
{
    let ghost ga = qemu_args.deep_view();
    let has_debug = save_needs_strip_prompt(&qemu_args);
    let final_args = if has_debug && strip_confirmed {
        strip_debug_exec(&qemu_args)
    } else {
        qemu_args
    };
    if save_needs_overwrite_prompt(store, &name, force) && !overwrite_confirmed {
        return SaveOutcome::Cancelled;
    }
    let config = QemuConfig { qemu_bin, args: final_args, desc };
    let text = encode_config(&config);
    proof {
        assert(config@ == save_record(config.qemu_bin@, ga, config.desc.deep_view(),
            strip_confirmed));
    }
    store.set(name, text);
    SaveOutcome::Saved
}

/// What a rename does to the store, and what it reports: a missing
/// source fails untouched, a refused overwrite cancels untouched, an
/// undecodable source fails untouched; otherwise the record, its
/// description replaced when one is supplied, stands under the new
/// name and the old name is gone.
pub open spec fn rename_transition(
    pre: Map<Seq<char>, Seq<char>>,
    post: Map<Seq<char>, Seq<char>>,
    desc: Option<Seq<char>>,
    force: bool,
    old_name: Seq<char>,
    new_name: Seq<char>,
    overwrite_confirmed: bool,
    r: Result<RenameOutcome, VexError>,
) -> bool {
    if !pre.contains_key(old_name) {
        (r matches Err(e) && e matches VexError::ConfigNotFound(n) && n@ == old_name) && post
            == pre
    } else if pre.contains_key(new_name) && !force && !overwrite_confirmed {
        (r matches Ok(o) && o is Cancelled) && post == pre
    } else {
        match decode_spec(pre[old_name]) {
            None => (r matches Err(e) && e is SerializationError) && post == pre,
            Some(c) => {
                let c2 = ConfigView {
                    qemu_bin: c.qemu_bin,
                    args: c.args,
                    desc: if desc is Some {
                        desc
                    } else {
                        c.desc
                    },
                };
                (r matches Ok(o) && o is Renamed) && post == pre.insert(
                    new_name,
                    encode_spec(c2),
                ).remove(old_name)
            },
        }
    }
}

/// Whether renaming to `new_name` must first ask before overwriting.
pub fn rename_needs_overwrite_prompt(store: &Store, new_name: &String, force: bool) -> (r: bool)
    requires
        store.wf(),
    ensures
        r == (store@.contains_key(new_name@) && !force),
{
    store.contains(new_name) && !force
}

/// Renames `old_name` to `new_name`.
///
/// Fails with `ConfigNotFound` when `old_name` has no record, and
/// reports itself cancelled when `new_name` has one, `force` is
/// clear and `overwrite_confirmed` is clear. Otherwise the old
/// record is decoded (`SerializationError` when that fails, with
/// nothing touched), its description replaced when one is supplied,
/// the result written under `new_name`, and the record at
/// `old_name` dropped.
pub fn rename_command(
    store: &mut Store,
    desc: Option<String>,
    force: bool,
    old_name: String,
    new_name: String,
    overwrite_confirmed: bool,
) -> (r: Result<RenameOutcome, VexError>)
    requires
        old(store).wf(),
    ensures
        final(store).wf(),
        rename_transition(
            old(store)@,
            final(store)@,
            desc.deep_view(),
            force,
            old_name@,
            new_name@,
            overwrite_confirmed,
            r,
        ),
        (r is Err || (r matches Ok(o) && o is Cancelled)) ==> final(store).pairs() == old(
            store,
        ).pairs(),
{
    let content = match store.get(&old_name) {
        None => {
            return Err(VexError::ConfigNotFound(old_name));
        },
        Some(c) => c.clone(),
    };
    if rename_needs_overwrite_prompt(store, &new_name, force) && !overwrite_confirmed {
        return Ok(RenameOutcome::Cancelled);
    }
    let config = match decode_config(content.as_str()) {
        None => {
            return Err(VexError::SerializationError("stored record does not decode".to_owned()));
        },
        Some(c) => c,
    };
    let config2 = QemuConfig {
        qemu_bin: config.qemu_bin,
        args: config.args,
        desc: match desc {
            Some(d) => Some(d),
            None => config.desc,
        },
    };
    let text = encode_config(&config2);
    store.set(new_name, text);
    store.delete(&old_name);
    Ok(RenameOutcome::Renamed)
}

/// What a remove does to the store, and what it reports: a missing
/// name fails untouched, else exactly that entry is gone.
pub open spec fn remove_transition(
    pre: Map<Seq<char>, Seq<char>>,
    post: Map<Seq<char>, Seq<char>>,
    name: Seq<char>,
    r: Result<(), VexError>,
) -> bool {
    if !pre.contains_key(name) {
        (r matches Err(e) && e matches VexError::ConfigNotFound(n) && n@ == name) && post == pre
    } else {
        r is Ok && post == pre.remove(name)
    }
}

/// Removes the record of `name`: `ConfigNotFound` when there is
/// none, otherwise exactly that entry is dropped.
pub fn remove_command(store: &mut Store, name: String) -> (r: Result<(), VexError>)
    requires
        old(store).wf(),
    ensures
        final(store).wf(),
        remove_transition(old(store)@, final(store)@, name@, r),
        r is Err ==> final(store).pairs() == old(store).pairs(),
        r is Ok ==> final(store).pairs() == old(store).pairs().remove(
            old(store).index_of_key(name@),
        ),
{
    if !store.contains(&name) {
        return Err(VexError::ConfigNotFound(name));
    }
    store.delete(&name);
    Ok(())
}

/// The listing a store denotes, from pair `i` on: each entry whose
/// text decodes, as its name and record, in store order; entries
/// that do not decode are skipped.
pub open spec fn listing_from(pairs: Seq<(Seq<char>, Seq<char>)>, i: int) -> Seq<
    (Seq<char>, ConfigView),
>
    decreases pairs.len() - i,
{
    if i < 0 || i >= pairs.len() {
        Seq::empty()
    } else {
        match decode_spec(pairs[i].1) {
            Some(c) => seq![(pairs[i].0, c)] + listing_from(pairs, i + 1),
            None => listing_from(pairs, i + 1),
        }
    }
}

/// The name-record pairs a result vector shows.
pub open spec fn listing_view(s: Seq<(String, QemuConfig)>) -> Seq<(Seq<char>, ConfigView)> {
    Seq::new(s.len(), |k: int| (s[k].0@, s[k].1@))
}

/// Lists every stored configuration that decodes, with its name, in
/// store order; entries that fail to decode are skipped, not errors.
pub fn list_command(store: &Store) -> (r: Vec<(String, QemuConfig)>)
    requires
        store.wf(),
    ensures
        listing_view(r@) == listing_from(store.pairs(), 0),
{
    let mut r: Vec<(String, QemuConfig)> = Vec::new();
    let n = store.len();
    let mut i: usize = 0;
    while i < n
        invariant
            store.wf(),
            n == store.pairs().len(),
            i <= n,
            listing_view(r@) + listing_from(store.pairs(), i as int) == listing_from(
                store.pairs(),
                0,
            ),
        decreases n - i,
    {
        let ghost prev = listing_view(r@);
        let ghost prevv = r@;
        match decode_config(store.value_at(i).as_str()) {
            Some(config) => {
                let name = store.key_at(i).clone();
                let ghost gn = name@;
                let ghost gc = config@;
                r.push((name, config));
                proof {
                    assert(listing_view(r@) =~= prev.push((gn, gc))) by {
                        assert forall|t: int| 0 <= t < r@.len() implies listing_view(r@)[t]
                            == prev.push((gn, gc))[t] by {
                            if t < prevv.len() {
                                assert(r@[t] == prevv[t]);
                            } else {
                                assert(r@[t].0@ == gn && r@[t].1@ == gc);
                            }
                        }
                    }
                    assert(listing_from(store.pairs(), i as int) == seq![
                        (store.pairs()[i as int].0, gc),
                    ] + listing_from(store.pairs(), i as int + 1));
                    assert(prev.push((gn, gc)) + listing_from(store.pairs(), i as int + 1)
                        =~= prev + (seq![(store.pairs()[i as int].0, gc)] + listing_from(
                        store.pairs(),
                        i as int + 1,
                    )));
                }
            },
            None => {
                proof {
                    assert(listing_from(store.pairs(), i as int) == listing_from(
                        store.pairs(),
                        i as int + 1,
                    ));
                }
            },
        }
        i = i + 1;
    }
    proof {
        assert(listing_from(store.pairs(), n as int) == Seq::<(Seq<char>, ConfigView)>::empty());
        assert(listing_view(r@) + Seq::<(Seq<char>, ConfigView)>::empty() =~= listing_view(r@));
    }
    r
}

/// The argument vector an execute operation hands to the child: the
/// stored arguments after substitution, with the two debug markers
/// appended when debug mode was asked for.
pub open spec fn exec_args_spec(
    stored: Seq<Seq<char>>,
    env: Map<Seq<char>, Seq<char>>,
    debug: bool,
) -> Seq<Seq<char>> {
    if debug {
        subst_all(stored, env) + seq!["-s"@, "-S"@]
    } else {
        subst_all(stored, env)
    }
}

/// What an execute operation yields for a store, a name and an
/// environment: a missing name fails, an undecodable record fails,
/// and otherwise the plan carries the stored executable with the
/// substituted arguments, the debug markers appended exactly in
/// debug mode.
pub open spec fn exec_result(
    pre: Map<Seq<char>, Seq<char>>,
    name: Seq<char>,
    debug: bool,
    env: Map<Seq<char>, Seq<char>>,
    r: Result<ExecPlan, VexError>,
) -> bool {
    if !pre.contains_key(name) {
        r matches Err(e) && e matches VexError::ConfigNotFound(n) && n@ == name
    } else {
        match decode_spec(pre[name]) {
            None => r matches Err(e) && e is SerializationError,
            Some(c) => r matches Ok(plan) && plan.qemu_bin@ == c.qemu_bin
                && plan.args.deep_view() == exec_args_spec(c.args, env, debug),
        }
    }
}

/// Plans the execution of the configuration of `name`: fails with
/// `ConfigNotFound` when there is none and `SerializationError`
/// when its record does not decode; otherwise yields the stored
/// executable with the substituted arguments, the debug markers
/// appended exactly when `debug` is set. The store is only read.
pub fn exec_command(store: &Store, name: String, debug: bool, env: &Store) -> (r: Result<
    ExecPlan,
    VexError,
>)
    requires
        store.wf(),
        env.wf(),
    ensures
        exec_result(store@, name@, debug, env@, r),
{
    let content = match store.get(&name) {
        None => {
            return Err(VexError::ConfigNotFound(name));
        },
        Some(c) => c.clone(),
    };
    let config = match decode_config(content.as_str()) {
        None => {
            return Err(VexError::SerializationError("stored record does not decode".to_owned()));
        },
        Some(c) => c,
    };
    let mut exec_args = substitute_params(&config.args, env);
    let ghost base = exec_args.deep_view();
    if debug {
        let ghost prevv = exec_args@;
        exec_args.push("-s".to_owned());
        proof {
            assert(exec_args.deep_view() =~= base.push("-s"@)) by {
                assert forall|t: int| 0 <= t < exec_args@.len() implies exec_args.deep_view()[t]
                    == base.push("-s"@)[t] by {
                    if t < prevv.len() {
                        assert(exec_args@[t] == prevv[t]);
                    }
                }
            }
        }
        let ghost prevv2 = exec_args@;
        let ghost base2 = exec_args.deep_view();
        exec_args.push("-S".to_owned());
        proof {
            assert(exec_args.deep_view() =~= base2.push("-S"@)) by {
                assert forall|t: int| 0 <= t < exec_args@.len() implies exec_args.deep_view()[t]
                    == base2.push("-S"@)[t] by {
                    if t < prevv2.len() {
                        assert(exec_args@[t] == prevv2[t]);
                    }
                }
            }
            assert(base.push("-s"@).push("-S"@) =~= base + seq!["-s"@, "-S"@]);
        }
    }
    Ok(ExecPlan { qemu_bin: config.qemu_bin, args: exec_args })
}

/// The outcome of the spawned child process, as the execute
/// operation reports it: success only on a clean zero exit;
/// otherwise `ExecutionFailed` with the exit code, `-1` when the
/// process could not start or gave no code.
pub fn execution_outcome(started: bool, success: bool, exit_code: Option<i32>) -> (r: Result<
    (),
    VexError,
>)
    ensures
        started && success <==> r is Ok,
        !(started && success) ==> (r matches Err(e) && e matches VexError::ExecutionFailed(code)
            && code == (if started {
            match exit_code {
                Some(c) => c as int,
                None => -1int,
            }
        } else {
            -1int
        })),
{
    if !started {
        Err(VexError::ExecutionFailed(-1))
    } else if success {
        Ok(())
    } else {
        match exit_code {
            Some(c) => Err(VexError::ExecutionFailed(c)),
            None => Err(VexError::ExecutionFailed(-1)),
        }
    }
}


/// Renaming moves the entry: after a completed rename to a
/// different name, the old name has no record, the new name has
/// one, and it decodes to the old record with the description
/// replaced when one was supplied — so a listing shows the new
/// name and not the old one.
pub proof fn lemma_rename_moves_entry(
    pre: Map<Seq<char>, Seq<char>>,
    post: Map<Seq<char>, Seq<char>>,
    desc: Option<Seq<char>>,
    force: bool,
    old_name: Seq<char>,
    new_name: Seq<char>,
    overwrite_confirmed: bool,
    o: RenameOutcome,
)
    requires
        rename_transition(pre, post, desc, force, old_name, new_name, overwrite_confirmed, Ok(o)),
        o is Renamed,
        old_name != new_name,
    ensures
        !post.contains_key(old_name),
        post.contains_key(new_name),
        decode_spec(pre[old_name]) matches Some(c) && decode_spec(post[new_name]) == Some(
            ConfigView {
                qemu_bin: c.qemu_bin,
                args: c.args,
                desc: if desc is Some {
                    desc
                } else {
                    c.desc
                },
            },
        ),
{
    match decode_spec(pre[old_name]) {
        Some(c) => {
            let c2 = ConfigView {
                qemu_bin: c.qemu_bin,
                args: c.args,
                desc: if desc is Some {
                    desc
                } else {
                    c.desc
                },
            };
            assert(post == pre.insert(new_name, encode_spec(c2)).remove(old_name));
            crate::codec::lemma_encode_decode(c2);
        },
        None => {
            assert(false);
        },
    }
}

/// Listing is a function of the store alone: two list results taken
/// from the same unchanged store show the same name-record pairs.
pub proof fn lemma_list_idempotent(
    store: Store,
    r1: Seq<(String, QemuConfig)>,
    r2: Seq<(String, QemuConfig)>,
)
    requires
        listing_view(r1) == listing_from(store.pairs(), 0),
        listing_view(r2) == listing_from(store.pairs(), 0),
    ensures
        listing_view(r1) == listing_view(r2),
{
}

/// A saved record decodes back to exactly what was saved: what the
/// store holds under the name after a completed save is the
/// canonical text of the record the save built.
pub proof fn lemma_save_round_trip(
    pre: Map<Seq<char>, Seq<char>>,
    post: Map<Seq<char>, Seq<char>>,
    force: bool,
    name: Seq<char>,
    desc: Option<Seq<char>>,
    qemu_bin: Seq<char>,
    args: Seq<Seq<char>>,
    strip_confirmed: bool,
    overwrite_confirmed: bool,
    r: SaveOutcome,
)
    requires
        save_transition(pre, post, force, name, desc, qemu_bin, args, strip_confirmed,
            overwrite_confirmed, r),
        r is Saved,
    ensures
        post.contains_key(name),
        decode_spec(post[name]) == Some(save_record(qemu_bin, args, desc, strip_confirmed)),
{
    crate::codec::lemma_encode_decode(save_record(qemu_bin, args, desc, strip_confirmed));
}

} // verus!
