//! The install and removal steps run end to end against a model of the
//! game's files: each directory is a map from file names to what the files
//! hold, and every check, copy, rename, write and delete does what
//! `std::fs` documents for it. Under this model the laws below relate an
//! install to the removal that follows it.
use vstd::prelude::*;

use crate::creamapi::{
    after_dll, replace_failure, after_restore, api_name, backup_name, cream_api_ini, orig_name, pending_at, remove_pending_at,
    remove_step, removal_message, step, success_message, ApplyActionView, ApplyEventView,
    ApplyRun, ApplyStage, Arch, RemoveActionView, RemoveEventView, RemoveStep,
};

verus! {

/// What a file holds: bytes, or the text written to it.
pub enum FileData {
    Bytes(Seq<u8>),
    Text(Seq<char>),
}

/// The name of the configuration file.
pub open spec fn config_name() -> Seq<char> {
    "cream_api.ini"@
}

/// The names that the install and removal touch are all different.
pub proof fn lemma_names_distinct()
    ensures
        api_name(Arch::X86) != orig_name(Arch::X86),
        api_name(Arch::X86) != backup_name(Arch::X86),
        api_name(Arch::X86) != api_name(Arch::X64),
        api_name(Arch::X86) != orig_name(Arch::X64),
        api_name(Arch::X86) != backup_name(Arch::X64),
        api_name(Arch::X86) != config_name(),
        orig_name(Arch::X86) != backup_name(Arch::X86),
        orig_name(Arch::X86) != api_name(Arch::X64),
        orig_name(Arch::X86) != orig_name(Arch::X64),
        orig_name(Arch::X86) != backup_name(Arch::X64),
        orig_name(Arch::X86) != config_name(),
        backup_name(Arch::X86) != api_name(Arch::X64),
        backup_name(Arch::X86) != orig_name(Arch::X64),
        backup_name(Arch::X86) != backup_name(Arch::X64),
        backup_name(Arch::X86) != config_name(),
        api_name(Arch::X64) != orig_name(Arch::X64),
        api_name(Arch::X64) != backup_name(Arch::X64),
        api_name(Arch::X64) != config_name(),
        orig_name(Arch::X64) != backup_name(Arch::X64),
        orig_name(Arch::X64) != config_name(),
        backup_name(Arch::X64) != config_name(),
{
    reveal_strlit("steam_api.dll");
    reveal_strlit("steam_api_o.dll");
    reveal_strlit("steam_api.dll.backup");
    reveal_strlit("steam_api64.dll");
    reveal_strlit("steam_api64_o.dll");
    reveal_strlit("steam_api64.dll.backup");
    reveal_strlit("cream_api.ini");
    assert(api_name(Arch::X86).len() == 13);
    assert(orig_name(Arch::X86).len() == 15);
    assert(backup_name(Arch::X86).len() == 20);
    assert(api_name(Arch::X64).len() == 15);
    assert(orig_name(Arch::X64).len() == 17);
    assert(backup_name(Arch::X64).len() == 22);
    assert(config_name().len() == 13);
    assert(api_name(Arch::X86)[0] != config_name()[0]);
    assert(orig_name(Arch::X86)[9] != api_name(Arch::X64)[9]);
}

// ---------------------------------------------------------------------------
// Installing

/// How the target directory answers an install action: the game directory
/// and the CreamAPI DLLs are there and readable; a check tells whether the
/// file is there; copying and renaming succeed where the source is there;
/// writing succeeds. `cream_x86` and `cream_x64` are the CreamAPI DLLs.
pub open spec fn install_world(
    files: Map<Seq<char>, FileData>,
    cream_x86: Seq<u8>,
    cream_x64: Seq<u8>,
    action: ApplyActionView,
) -> (Map<Seq<char>, FileData>, ApplyEventView) {
    match action {
        ApplyActionView::CheckGameDir => (files, ApplyEventView::GameDirChecked(true)),
        ApplyActionView::CheckCreamDll(_) => (files, ApplyEventView::FileChecked(true, Seq::empty())),
        ApplyActionView::ReadCreamDll(_) => (files, ApplyEventView::Performed(Ok(()))),
        ApplyActionView::CheckGameFile(name) => (
            files,
            ApplyEventView::FileChecked(files.contains_key(name), Seq::empty()),
        ),
        ApplyActionView::CopyGameFile(from, to) => if files.contains_key(from) {
            (files.insert(to, files[from]), ApplyEventView::Performed(Ok(())))
        } else {
            (files, ApplyEventView::Performed(Err("not found"@)))
        },
        ApplyActionView::RenameGameFile(from, to) => if files.contains_key(from) {
            (files.remove(from).insert(to, files[from]), ApplyEventView::Performed(Ok(())))
        } else {
            (files, ApplyEventView::Performed(Err("not found"@)))
        },
        ApplyActionView::WriteCreamDll(name) => (
            files.insert(
                name,
                FileData::Bytes(
                    if name == api_name(Arch::X86) {
                        cream_x86
                    } else {
                        cream_x64
                    },
                ),
            ),
            ApplyEventView::Performed(Ok(())),
        ),
        ApplyActionView::CreateConfig => (
            files.insert(config_name(), FileData::Text(Seq::empty())),
            ApplyEventView::Performed(Ok(())),
        ),
        ApplyActionView::WriteConfig(contents) => (
            files.insert(config_name(), FileData::Text(contents)),
            ApplyEventView::Performed(Ok(())),
        ),
        ApplyActionView::Finish(_, _) => (files, ApplyEventView::Performed(Ok(()))),
    }
}

/// An install of these settings run for at most `fuel` steps from `stage`:
/// each pending action is answered by the directory, and the answer is fed
/// to the install's step. Gives the stage, outcome and files at the end.
pub open spec fn install_run(
    run: ApplyRun,
    stage: ApplyStage,
    ok: bool,
    msg: Seq<char>,
    files: Map<Seq<char>, FileData>,
    cream_x86: Seq<u8>,
    cream_x64: Seq<u8>,
    fuel: nat,
) -> (ApplyStage, bool, Seq<char>, Map<Seq<char>, FileData>)
    decreases fuel,
{
    if fuel == 0 || stage == ApplyStage::Done {
        (stage, ok, msg, files)
    } else {
        let answer = install_world(files, cream_x86, cream_x64, pending_at(run, stage, ok, msg));
        let after = step(run, stage, ok, msg, answer.1);
        install_run(run, after.0, after.1, after.2, answer.0, cream_x86, cream_x64, (fuel - 1) as nat)
    }
}

/// Whether the run installs the DLL `a`.
pub open spec fn requested(run: ApplyRun, a: Arch) -> bool {
    match a {
        Arch::X86 => run.has_x86,
        Arch::X64 => run.has_x64,
    }
}

/// The CreamAPI DLL that takes the place of the game's DLL `a`.
pub open spec fn cream_of(a: Arch, cream_x86: Seq<u8>, cream_x64: Seq<u8>) -> Seq<u8> {
    match a {
        Arch::X86 => cream_x86,
        Arch::X64 => cream_x64,
    }
}

/// The game's original DLL `a`: the one an earlier install set aside, where
/// there is one, else the game's DLL itself.
pub open spec fn original_of(files: Map<Seq<char>, FileData>, a: Arch) -> FileData {
    if files.contains_key(orig_name(a)) {
        files[orig_name(a)]
    } else {
        files[api_name(a)]
    }
}

/// The files once the DLL `a` is in place: the backup and the set-aside
/// original both hold the game's original DLL, and the CreamAPI DLL takes
/// the game DLL's name.
pub open spec fn with_dll(files: Map<Seq<char>, FileData>, a: Arch, cream: Seq<u8>) -> Map<
    Seq<char>,
    FileData,
> {
    files.insert(backup_name(a), original_of(files, a)).insert(orig_name(a), original_of(files, a)).insert(
        api_name(a),
        FileData::Bytes(cream),
    )
}

/// The message of an install that found no game DLL `a` in the target.
pub open spec fn missing_dll_message(a: Arch) -> Seq<char> {
    replace_failure(a) + api_name(a) + " not found in "@
}

/// How a whole install ends: it fails at the first requested DLL that the
/// target lacks, with the files as they are then; otherwise each requested
/// DLL is put in place, the 32-bit one first, `cream_api.ini` is written,
/// and it succeeds.
pub open spec fn install_outcome(
    run: ApplyRun,
    files: Map<Seq<char>, FileData>,
    cream_x86: Seq<u8>,
    cream_x64: Seq<u8>,
) -> (ApplyStage, bool, Seq<char>, Map<Seq<char>, FileData>) {
    if run.has_x86 && !files.contains_key(api_name(Arch::X86)) {
        (ApplyStage::Done, false, missing_dll_message(Arch::X86), files)
    } else {
        let f1 = if run.has_x86 {
            with_dll(files, Arch::X86, cream_x86)
        } else {
            files
        };
        if run.has_x64 && !f1.contains_key(api_name(Arch::X64)) {
            (ApplyStage::Done, false, missing_dll_message(Arch::X64), f1)
        } else {
            let f2 = if run.has_x64 {
                with_dll(f1, Arch::X64, cream_x64)
            } else {
                f1
            };
            (
                ApplyStage::Done,
                true,
                success_message(run.dlcs@.len()),
                f2.insert(
                    config_name(),
                    FileData::Text(
                        cream_api_ini(run.app_id, run.dlcs@, run.offline, run.extra_protection),
                    ),
                ),
            )
        }
    }
}

/// The whole install, from the first step.
pub open spec fn install(
    run: ApplyRun,
    files: Map<Seq<char>, FileData>,
    cream_x86: Seq<u8>,
    cream_x64: Seq<u8>,
) -> (ApplyStage, bool, Seq<char>, Map<Seq<char>, FileData>) {
    install_run(run, ApplyStage::CheckGameDir, false, Seq::empty(), files, cream_x86, cream_x64, 20)
}

/// The steps of one DLL, from the check of the CreamAPI DLL: where the
/// game's DLL is there, they put the DLL in place in 6 steps (an original
/// set aside earlier) or 7; where it is not, the install ends.
proof fn lemma_dll_steps(
    run: ApplyRun,
    a: Arch,
    files: Map<Seq<char>, FileData>,
    cream_x86: Seq<u8>,
    cream_x64: Seq<u8>,
    fuel: nat,
)
    requires
        fuel >= 7,
    ensures
        files.contains_key(api_name(a)) ==> install_run(
            run,
            ApplyStage::CheckCreamDll(a),
            false,
            Seq::empty(),
            files,
            cream_x86,
            cream_x64,
            fuel,
        ) == install_run(
            run,
            after_dll(run.has_x64, a),
            false,
            Seq::empty(),
            with_dll(files, a, cream_of(a, cream_x86, cream_x64)),
            cream_x86,
            cream_x64,
            (fuel - if files.contains_key(orig_name(a)) { 6int } else { 7int }) as nat,
        ),
        !files.contains_key(api_name(a)) ==> install_run(
            run,
            ApplyStage::CheckCreamDll(a),
            false,
            Seq::empty(),
            files,
            cream_x86,
            cream_x64,
            fuel,
        ) == (ApplyStage::Done, false, missing_dll_message(a), files),
{
    lemma_names_distinct();
    let e = Seq::<char>::empty();
    let cx = cream_x86;
    let cy = cream_x64;
    let cream = cream_of(a, cx, cy);
    assert(install_run(run, ApplyStage::CheckCreamDll(a), false, e, files, cx, cy, fuel)
        == install_run(run, ApplyStage::ReadCreamDll(a), false, e, files, cx, cy, (fuel - 1) as nat));
    assert(install_run(run, ApplyStage::ReadCreamDll(a), false, e, files, cx, cy, (fuel - 1) as nat)
        == install_run(run, ApplyStage::CheckApiDll(a), false, e, files, cx, cy, (fuel - 2) as nat));
    if !files.contains_key(api_name(a)) {
        let failed = step(
            run,
            ApplyStage::CheckApiDll(a),
            false,
            e,
            ApplyEventView::FileChecked(false, Seq::empty()),
        );
        assert(failed.2 =~= missing_dll_message(a));
        assert(install_run(run, ApplyStage::CheckApiDll(a), false, e, files, cx, cy, (fuel - 2) as nat)
            == install_run(run, failed.0, failed.1, failed.2, files, cx, cy, (fuel - 3) as nat));
    } else {
        assert(install_run(run, ApplyStage::CheckApiDll(a), false, e, files, cx, cy, (fuel - 2) as nat)
            == install_run(run, ApplyStage::CheckOrigDll(a), false, e, files, cx, cy, (fuel - 3) as nat));
        assert(pending_at(run, ApplyStage::WriteCreamDll(a), false, e) == ApplyActionView::WriteCreamDll(
            api_name(a),
        ));
        if files.contains_key(orig_name(a)) {
            let original = files[orig_name(a)];
            let f1 = files.insert(backup_name(a), original);
            let f2 = f1.insert(api_name(a), FileData::Bytes(cream));
            assert(install_run(run, ApplyStage::CheckOrigDll(a), false, e, files, cx, cy, (fuel - 3) as nat)
                == install_run(run, ApplyStage::BackupOrigDll(a), false, e, files, cx, cy, (fuel - 4) as nat));
            assert(install_run(run, ApplyStage::BackupOrigDll(a), false, e, files, cx, cy, (fuel - 4) as nat)
                == install_run(run, ApplyStage::WriteCreamDll(a), false, e, f1, cx, cy, (fuel - 5) as nat));
            assert(install_run(run, ApplyStage::WriteCreamDll(a), false, e, f1, cx, cy, (fuel - 5) as nat)
                == install_run(run, after_dll(run.has_x64, a), false, e, f2, cx, cy, (fuel - 6) as nat));
            assert(f2 =~= with_dll(files, a, cream));
        } else {
            let game = files[api_name(a)];
            let f1 = files.insert(backup_name(a), game);
            let f2 = f1.remove(api_name(a)).insert(orig_name(a), game);
            let f3 = f2.insert(api_name(a), FileData::Bytes(cream));
            assert(install_run(run, ApplyStage::CheckOrigDll(a), false, e, files, cx, cy, (fuel - 3) as nat)
                == install_run(run, ApplyStage::BackupApiDll(a), false, e, files, cx, cy, (fuel - 4) as nat));
            assert(install_run(run, ApplyStage::BackupApiDll(a), false, e, files, cx, cy, (fuel - 4) as nat)
                == install_run(run, ApplyStage::RenameApiDll(a), false, e, f1, cx, cy, (fuel - 5) as nat));
            assert(f1[api_name(a)] == game);
            assert(install_run(run, ApplyStage::RenameApiDll(a), false, e, f1, cx, cy, (fuel - 5) as nat)
                == install_run(run, ApplyStage::WriteCreamDll(a), false, e, f2, cx, cy, (fuel - 6) as nat));
            assert(install_run(run, ApplyStage::WriteCreamDll(a), false, e, f2, cx, cy, (fuel - 6) as nat)
                == install_run(run, after_dll(run.has_x64, a), false, e, f3, cx, cy, (fuel - 7) as nat));
            assert(f3 =~= with_dll(files, a, cream));
        }
    }
}

/// The last two steps: creating and writing `cream_api.ini`.
proof fn lemma_config_steps(
    run: ApplyRun,
    files: Map<Seq<char>, FileData>,
    cream_x86: Seq<u8>,
    cream_x64: Seq<u8>,
    fuel: nat,
)
    requires
        fuel >= 2,
    ensures
        install_run(run, ApplyStage::CreateConfig, false, Seq::empty(), files, cream_x86, cream_x64, fuel)
            == (
            ApplyStage::Done,
            true,
            success_message(run.dlcs@.len()),
            files.insert(
                config_name(),
                FileData::Text(cream_api_ini(run.app_id, run.dlcs@, run.offline, run.extra_protection)),
            ),
        ),
{
    let e = Seq::<char>::empty();
    let conf = cream_api_ini(run.app_id, run.dlcs@, run.offline, run.extra_protection);
    let f1 = files.insert(config_name(), FileData::Text(Seq::empty()));
    let f2 = f1.insert(config_name(), FileData::Text(conf));
    assert(install_run(run, ApplyStage::CreateConfig, false, e, files, cream_x86, cream_x64, fuel)
        == install_run(run, ApplyStage::WriteConfig, false, e, f1, cream_x86, cream_x64, (fuel - 1) as nat));
    assert(install_run(run, ApplyStage::WriteConfig, false, e, f1, cream_x86, cream_x64, (fuel - 1) as nat)
        == install_run(
        run,
        ApplyStage::Done,
        true,
        success_message(run.dlcs@.len()),
        f2,
        cream_x86,
        cream_x64,
        (fuel - 2) as nat,
    ));
    assert(f2 =~= files.insert(config_name(), FileData::Text(conf)));
}

/// A whole install, for any choice of DLLs, ends as `install_outcome` says.
pub proof fn lemma_install_outcome(
    run: ApplyRun,
    files: Map<Seq<char>, FileData>,
    cream_x86: Seq<u8>,
    cream_x64: Seq<u8>,
)
    ensures
        install(run, files, cream_x86, cream_x64) == install_outcome(run, files, cream_x86, cream_x64),
{
    lemma_names_distinct();
    let e = Seq::<char>::empty();
    let cx = cream_x86;
    let cy = cream_x64;
    let first = if run.has_x86 {
        ApplyStage::CheckCreamDll(Arch::X86)
    } else {
        after_dll(run.has_x64, Arch::X86)
    };
    assert(install_run(run, ApplyStage::CheckGameDir, false, e, files, cx, cy, 20) == install_run(
        run, first, false, e, files, cx, cy, 19));
    let f1 = if run.has_x86 {
        with_dll(files, Arch::X86, cx)
    } else {
        files
    };
    let k1: int = if run.has_x86 {
        if files.contains_key(orig_name(Arch::X86)) { 6 } else { 7 }
    } else {
        0
    };
    if run.has_x86 {
        lemma_dll_steps(run, Arch::X86, files, cx, cy, 19);
    }
    if !(run.has_x86 && !files.contains_key(api_name(Arch::X86))) {
        let second = if run.has_x64 {
            ApplyStage::CheckCreamDll(Arch::X64)
        } else {
            ApplyStage::CreateConfig
        };
        assert(install(run, files, cx, cy) == install_run(run, second, false, e, f1, cx, cy, (19 - k1) as nat));
        assert(f1.contains_key(api_name(Arch::X64)) == files.contains_key(api_name(Arch::X64)));
        let f2 = if run.has_x64 {
            with_dll(f1, Arch::X64, cy)
        } else {
            f1
        };
        let k2: int = if run.has_x64 {
            if f1.contains_key(orig_name(Arch::X64)) { 6 } else { 7 }
        } else {
            0
        };
        if run.has_x64 {
            lemma_dll_steps(run, Arch::X64, f1, cx, cy, (19 - k1) as nat);
        }
        if !(run.has_x64 && !f1.contains_key(api_name(Arch::X64))) {
            assert(install(run, files, cx, cy) == install_run(
                run, ApplyStage::CreateConfig, false, e, f2, cx, cy, (19 - k1 - k2) as nat));
            lemma_config_steps(run, f2, cx, cy, (19 - k1 - k2) as nat);
        }
    }
}

/// An install succeeds exactly where the target holds the game's DLL of
/// every requested kind.
pub proof fn lemma_install_succeeds_iff_dlls_present(
    run: ApplyRun,
    files: Map<Seq<char>, FileData>,
    cream_x86: Seq<u8>,
    cream_x64: Seq<u8>,
)
    ensures
        install(run, files, cream_x86, cream_x64).0 == ApplyStage::Done,
        install(run, files, cream_x86, cream_x64).1 <==> (run.has_x86 ==> files.contains_key(
            api_name(Arch::X86),
        )) && (run.has_x64 ==> files.contains_key(api_name(Arch::X64))),
{
    lemma_names_distinct();
    lemma_install_outcome(run, files, cream_x86, cream_x64);
}

/// The backup is a copy of the game's original DLL: after a successful
/// install, for each requested DLL, the backup and the set-aside original
/// both hold the original (the one an earlier install set aside, where
/// there is one, else the game's DLL as it was), and the CreamAPI DLL
/// stands in the game DLL's place.
pub proof fn lemma_backup_is_the_original(
    run: ApplyRun,
    files: Map<Seq<char>, FileData>,
    cream_x86: Seq<u8>,
    cream_x64: Seq<u8>,
    a: Arch,
)
    requires
        requested(run, a),
        install(run, files, cream_x86, cream_x64).1,
    ensures
        install(run, files, cream_x86, cream_x64).3[backup_name(a)] == original_of(files, a),
        install(run, files, cream_x86, cream_x64).3[orig_name(a)] == original_of(files, a),
        install(run, files, cream_x86, cream_x64).3[api_name(a)] == FileData::Bytes(
            cream_of(a, cream_x86, cream_x64),
        ),
{
    lemma_names_distinct();
    lemma_install_outcome(run, files, cream_x86, cream_x64);
    let f1 = if run.has_x86 {
        with_dll(files, Arch::X86, cream_x86)
    } else {
        files
    };
    assert(original_of(f1, Arch::X64) == original_of(files, Arch::X64));
}

/// An install never overwrites or deletes an original that an earlier
/// install set aside, of either DLL, whatever DLLs it installs and whether
/// it succeeds or not.
pub proof fn lemma_install_keeps_the_set_aside_originals(
    run: ApplyRun,
    files: Map<Seq<char>, FileData>,
    cream_x86: Seq<u8>,
    cream_x64: Seq<u8>,
    a: Arch,
)
    requires
        files.contains_key(orig_name(a)),
    ensures
        install(run, files, cream_x86, cream_x64).3.contains_key(orig_name(a)),
        install(run, files, cream_x86, cream_x64).3[orig_name(a)] == files[orig_name(a)],
{
    lemma_names_distinct();
    lemma_install_outcome(run, files, cream_x86, cream_x64);
    let f1 = if run.has_x86 {
        with_dll(files, Arch::X86, cream_x86)
    } else {
        files
    };
    assert(f1.contains_key(orig_name(a)) && f1[orig_name(a)] == files[orig_name(a)]);
}

// ---------------------------------------------------------------------------
// Removing

/// How the directories of a removal answer its actions: a check tells
/// whether the file is there; deleting and renaming succeed where the file
/// is there and fail, changing nothing, where it is not.
pub open spec fn removal_world(
    dirs: Seq<Map<Seq<char>, FileData>>,
    action: RemoveActionView,
) -> (Seq<Map<Seq<char>, FileData>>, RemoveEventView) {
    match action {
        RemoveActionView::CheckFile(d, name) => (
            dirs,
            RemoveEventView::FileChecked(0 <= d < dirs.len() && dirs[d].contains_key(name)),
        ),
        RemoveActionView::RemoveFile(d, name) => if 0 <= d < dirs.len() && dirs[d].contains_key(name) {
            (dirs.update(d, dirs[d].remove(name)), RemoveEventView::Performed(true))
        } else {
            (dirs, RemoveEventView::Performed(false))
        },
        RemoveActionView::RenameFile(d, from, to) => if 0 <= d < dirs.len() && dirs[d].contains_key(
            from,
        ) {
            (dirs.update(d, dirs[d].remove(from).insert(to, dirs[d][from])), RemoveEventView::Performed(true))
        } else {
            (dirs, RemoveEventView::Performed(false))
        },
        RemoveActionView::Finish(_, _) => (dirs, RemoveEventView::Performed(true)),
    }
}

/// A removal over the first `dir_count` directories run for at most `fuel`
/// steps from directory `dir` at `step`: each pending action is answered by
/// the directories and the answer fed to the removal's step. Gives the
/// directory, step and restored flag at the end, and the directories.
pub open spec fn removal_run(
    dir_count: int,
    dir: int,
    step: RemoveStep,
    restored: bool,
    dirs: Seq<Map<Seq<char>, FileData>>,
    fuel: nat,
) -> (int, RemoveStep, bool, Seq<Map<Seq<char>, FileData>>)
    decreases fuel,
{
    if fuel == 0 || dir >= dir_count {
        (dir, step, restored, dirs)
    } else {
        let answer = removal_world(dirs, remove_pending_at(dir_count, dir, step, restored));
        let after = remove_step(dir_count, dir, step, restored, answer.1);
        removal_run(dir_count, after.0, after.1, after.2, answer.0, (fuel - 1) as nat)
    }
}

/// The whole removal over all the directories, from the first step.
pub open spec fn removal(dirs: Seq<Map<Seq<char>, FileData>>) -> (int, RemoveStep, bool, Seq<Map<Seq<char>, FileData>>) {
    removal_run(dirs.len() as int, 0, RemoveStep::CheckOrig(Arch::X86), false, dirs, 12 * dirs.len())
}

/// A directory after its DLL `a` was put back: the set-aside original, where
/// there is one, is renamed back over the CreamAPI DLL.
pub open spec fn restore_one(files: Map<Seq<char>, FileData>, a: Arch) -> Map<Seq<char>, FileData> {
    if files.contains_key(orig_name(a)) {
        files.remove(orig_name(a)).insert(api_name(a), files[orig_name(a)])
    } else {
        files
    }
}

/// A directory after a removal: both originals put back, and
/// `cream_api.ini` and both backups gone.
pub open spec fn cleaned(files: Map<Seq<char>, FileData>) -> Map<Seq<char>, FileData> {
    restore_one(restore_one(files, Arch::X86), Arch::X64).remove(config_name()).remove(
        backup_name(Arch::X86),
    ).remove(backup_name(Arch::X64))
}

/// Whether a directory holds a set-aside original.
pub open spec fn has_original(files: Map<Seq<char>, FileData>) -> bool {
    files.contains_key(orig_name(Arch::X86)) || files.contains_key(orig_name(Arch::X64))
}

/// The number of steps a removal takes in a directory.
pub open spec fn dir_steps(files: Map<Seq<char>, FileData>) -> nat {
    5 + (if files.contains_key(orig_name(Arch::X86)) { 2nat } else { 0 }) + (if files.contains_key(
        orig_name(Arch::X64),
    ) {
        2nat
    } else {
        0
    }) + (if files.contains_key(config_name()) { 1nat } else { 0 }) + (if files.contains_key(
        backup_name(Arch::X86),
    ) {
        1nat
    } else {
        0
    }) + (if files.contains_key(backup_name(Arch::X64)) { 1nat } else { 0 })
}

proof fn lemma_restore_step(
    n: int,
    d: int,
    a: Arch,
    r: bool,
    dirs: Seq<Map<Seq<char>, FileData>>,
    fuel: nat,
)
    requires
        0 <= d < n,
        d < dirs.len(),
        fuel >= 3,
    ensures
        removal_run(n, d, RemoveStep::CheckOrig(a), r, dirs, fuel) == removal_run(
            n,
            d,
            after_restore(a),
            r || dirs[d].contains_key(orig_name(a)),
            dirs.update(d, restore_one(dirs[d], a)),
            (fuel - if dirs[d].contains_key(orig_name(a)) { 3int } else { 1int }) as nat,
        ),
{
    lemma_names_distinct();
    let files = dirs[d];
    if files.contains_key(orig_name(a)) {
        let ds1 = if files.contains_key(api_name(a)) {
            dirs.update(d, files.remove(api_name(a)))
        } else {
            dirs
        };
        assert(removal_run(n, d, RemoveStep::CheckOrig(a), r, dirs, fuel) == removal_run(
            n, d, RemoveStep::RemoveApi(a), r, dirs, (fuel - 1) as nat));
        assert(removal_run(n, d, RemoveStep::RemoveApi(a), r, dirs, (fuel - 1) as nat)
            == removal_run(n, d, RemoveStep::RenameOrig(a), r, ds1, (fuel - 2) as nat));
        assert(ds1[d].contains_key(orig_name(a)));
        assert(ds1[d][orig_name(a)] == files[orig_name(a)]);
        let ds2 = ds1.update(d, ds1[d].remove(orig_name(a)).insert(api_name(a), files[orig_name(a)]));
        assert(removal_run(n, d, RemoveStep::RenameOrig(a), r, ds1, (fuel - 2) as nat)
            == removal_run(n, d, after_restore(a), true, ds2, (fuel - 3) as nat));
        assert(ds2 =~= dirs.update(d, restore_one(files, a))) by {
            assert(ds1[d].remove(orig_name(a)).insert(api_name(a), files[orig_name(a)])
                =~= restore_one(files, a));
        }
    } else {
        assert(dirs.update(d, restore_one(files, a)) =~= dirs);
    }
}

proof fn lemma_config_step(n: int, d: int, r: bool, dirs: Seq<Map<Seq<char>, FileData>>, fuel: nat)
    requires
        0 <= d < n,
        d < dirs.len(),
        fuel >= 2,
    ensures
        removal_run(n, d, RemoveStep::CheckConfig, r, dirs, fuel) == removal_run(
            n,
            d,
            RemoveStep::CheckBackup(Arch::X86),
            r,
            dirs.update(d, dirs[d].remove(config_name())),
            (fuel - if dirs[d].contains_key(config_name()) { 2int } else { 1int }) as nat,
        ),
{
    let next = RemoveStep::CheckBackup(Arch::X86);
    if dirs[d].contains_key(config_name()) {
        let ds = dirs.update(d, dirs[d].remove(config_name()));
        assert(removal_run(n, d, RemoveStep::CheckConfig, r, dirs, fuel) == removal_run(
            n, d, RemoveStep::RemoveConfig, r, dirs, (fuel - 1) as nat));
        assert(removal_run(n, d, RemoveStep::RemoveConfig, r, dirs, (fuel - 1) as nat)
            == removal_run(n, d, next, r, ds, (fuel - 2) as nat));
    } else {
        assert(removal_run(n, d, RemoveStep::CheckConfig, r, dirs, fuel) == removal_run(
            n, d, next, r, dirs, (fuel - 1) as nat));
        assert(dirs.update(d, dirs[d].remove(config_name())) =~= dirs) by {
            assert(dirs[d].remove(config_name()) =~= dirs[d]);
        }
    }
}

proof fn lemma_backup_step(
    n: int,
    d: int,
    a: Arch,
    r: bool,
    dirs: Seq<Map<Seq<char>, FileData>>,
    fuel: nat,
)
    requires
        0 <= d < n,
        d < dirs.len(),
        fuel >= 2,
    ensures
        removal_run(n, d, RemoveStep::CheckBackup(a), r, dirs, fuel) == removal_run(
            n,
            if a == Arch::X86 { d } else { d + 1 },
            if a == Arch::X86 { RemoveStep::CheckBackup(Arch::X64) } else { RemoveStep::CheckOrig(Arch::X86) },
            r,
            dirs.update(d, dirs[d].remove(backup_name(a))),
            (fuel - if dirs[d].contains_key(backup_name(a)) { 2int } else { 1int }) as nat,
        ),
{
    let nd = if a == Arch::X86 { d } else { d + 1 };
    let next = if a == Arch::X86 { RemoveStep::CheckBackup(Arch::X64) } else { RemoveStep::CheckOrig(Arch::X86) };
    if dirs[d].contains_key(backup_name(a)) {
        let ds = dirs.update(d, dirs[d].remove(backup_name(a)));
        assert(removal_run(n, d, RemoveStep::CheckBackup(a), r, dirs, fuel) == removal_run(
            n, d, RemoveStep::RemoveBackup(a), r, dirs, (fuel - 1) as nat));
        assert(removal_run(n, d, RemoveStep::RemoveBackup(a), r, dirs, (fuel - 1) as nat)
            == removal_run(n, nd, next, r, ds, (fuel - 2) as nat));
    } else {
        assert(removal_run(n, d, RemoveStep::CheckBackup(a), r, dirs, fuel) == removal_run(
            n, nd, next, r, dirs, (fuel - 1) as nat));
        assert(dirs.update(d, dirs[d].remove(backup_name(a))) =~= dirs) by {
            assert(dirs[d].remove(backup_name(a)) =~= dirs[d]);
        }
    }
}

proof fn lemma_one_dir(n: int, d: int, r: bool, dirs: Seq<Map<Seq<char>, FileData>>, fuel: nat)
    requires
        0 <= d < n,
        d < dirs.len(),
        fuel >= 12,
    ensures
        dir_steps(dirs[d]) <= 12,
        removal_run(n, d, RemoveStep::CheckOrig(Arch::X86), r, dirs, fuel) == removal_run(
            n,
            d + 1,
            RemoveStep::CheckOrig(Arch::X86),
            r || has_original(dirs[d]),
            dirs.update(d, cleaned(dirs[d])),
            (fuel - dir_steps(dirs[d])) as nat,
        ),
{
    lemma_names_distinct();
    let f0 = dirs[d];
    let f1 = restore_one(f0, Arch::X86);
    let f2 = restore_one(f1, Arch::X64);
    let f3 = f2.remove(config_name());
    let f4 = f3.remove(backup_name(Arch::X86));
    let f5 = f4.remove(backup_name(Arch::X64));
    let k1: int = if f0.contains_key(orig_name(Arch::X86)) { 3 } else { 1 };
    let k2: int = if f0.contains_key(orig_name(Arch::X64)) { 3 } else { 1 };
    let k3: int = if f0.contains_key(config_name()) { 2 } else { 1 };
    let k4: int = if f0.contains_key(backup_name(Arch::X86)) { 2 } else { 1 };
    let k5: int = if f0.contains_key(backup_name(Arch::X64)) { 2 } else { 1 };
    assert(f1.contains_key(orig_name(Arch::X64)) == f0.contains_key(orig_name(Arch::X64)));
    assert(f2.contains_key(config_name()) == f0.contains_key(config_name()));
    assert(f3.contains_key(backup_name(Arch::X86)) == f0.contains_key(backup_name(Arch::X86)));
    assert(f4.contains_key(backup_name(Arch::X64)) == f0.contains_key(backup_name(Arch::X64)));
    let ds1 = dirs.update(d, f1);
    let ds2 = ds1.update(d, f2);
    let ds3 = ds2.update(d, f3);
    let ds4 = ds3.update(d, f4);
    let ds5 = ds4.update(d, f5);
    let r1 = r || f0.contains_key(orig_name(Arch::X86));
    let r2 = r1 || f1.contains_key(orig_name(Arch::X64));
    lemma_restore_step(n, d, Arch::X86, r, dirs, fuel);
    lemma_restore_step(n, d, Arch::X64, r1, ds1, (fuel - k1) as nat);
    lemma_config_step(n, d, r2, ds2, (fuel - k1 - k2) as nat);
    lemma_backup_step(n, d, Arch::X86, r2, ds3, (fuel - k1 - k2 - k3) as nat);
    lemma_backup_step(n, d, Arch::X64, r2, ds4, (fuel - k1 - k2 - k3 - k4) as nat);
    assert(ds5 =~= dirs.update(d, cleaned(f0)));
    assert(dir_steps(f0) == k1 + k2 + k3 + k4 + k5);
}

/// Whether any directory from `from` on holds a set-aside original.
pub open spec fn original_from(dirs: Seq<Map<Seq<char>, FileData>>, from: int) -> bool {
    exists|i: int| from <= i < dirs.len() && #[trigger] has_original(dirs[i])
}

proof fn lemma_removal_from(d: int, r: bool, dirs: Seq<Map<Seq<char>, FileData>>, fuel: nat)
    requires
        0 <= d <= dirs.len(),
        fuel >= 12 * (dirs.len() - d),
    ensures
        removal_run(dirs.len() as int, d, RemoveStep::CheckOrig(Arch::X86), r, dirs, fuel) == (
            dirs.len() as int,
            RemoveStep::CheckOrig(Arch::X86),
            r || original_from(dirs, d),
            Seq::new(dirs.len(), |i: int| if i < d { dirs[i] } else { cleaned(dirs[i]) }),
        ),
    decreases dirs.len() - d,
{
    let n = dirs.len() as int;
    if d == n {
        assert(Seq::new(dirs.len(), |i: int| if i < d { dirs[i] } else { cleaned(dirs[i]) }) =~= dirs);
    } else {
        let dirs2 = dirs.update(d, cleaned(dirs[d]));
        let r2 = r || has_original(dirs[d]);
        lemma_one_dir(n, d, r, dirs, fuel);
        lemma_removal_from(d + 1, r2, dirs2, (fuel - dir_steps(dirs[d])) as nat);
        assert(Seq::new(dirs2.len(), |i: int| if i < d + 1 { dirs2[i] } else { cleaned(dirs2[i]) })
            =~= Seq::new(dirs.len(), |i: int| if i < d { dirs[i] } else { cleaned(dirs[i]) }));
        if original_from(dirs, d) && !has_original(dirs[d]) {
            let i = choose|i: int| d <= i < dirs.len() && #[trigger] has_original(dirs[i]);
            assert(has_original(dirs2[i]));
        }
        if original_from(dirs2, d + 1) {
            let i = choose|i: int| d + 1 <= i < dirs2.len() && #[trigger] has_original(dirs2[i]);
            assert(has_original(dirs[i]));
        }
        assert((r2 || original_from(dirs2, d + 1)) == (r || original_from(dirs, d)));
    }
}

/// A removal visits every directory in turn; each ends cleaned: both
/// originals put back over the CreamAPI DLLs, `cream_api.ini` and both
/// backups deleted, and nothing else touched. It reports success exactly
/// where some directory held a set-aside original.
pub proof fn lemma_removal_cleans_every_directory(dirs: Seq<Map<Seq<char>, FileData>>)
    ensures
        removal(dirs).0 == dirs.len(),
        removal(dirs).2 == original_from(dirs, 0),
        removal(dirs).3 == Seq::new(dirs.len(), |i: int| cleaned(dirs[i])),
        remove_pending_at(dirs.len() as int, removal(dirs).0, removal(dirs).1, removal(dirs).2)
            == RemoveActionView::Finish(original_from(dirs, 0), removal_message(original_from(dirs, 0))),
{
    lemma_removal_from(0, false, dirs, 12 * dirs.len());
    assert(Seq::new(dirs.len(), |i: int| if i < 0 { dirs[i] } else { cleaned(dirs[i]) })
        =~= Seq::new(dirs.len(), |i: int| cleaned(dirs[i])));
}

/// Removing CreamAPI undoes an install: where one or both DLLs were
/// installed into a directory that held the game's DLLs and none of
/// CreamAPI's files, the removal that follows puts that directory back
/// exactly as it was and reports that the original DLLs were restored.
pub proof fn lemma_install_then_remove(
    run: ApplyRun,
    files: Map<Seq<char>, FileData>,
    cream_x86: Seq<u8>,
    cream_x64: Seq<u8>,
    dirs: Seq<Map<Seq<char>, FileData>>,
    t: int,
)
    requires
        run.has_x86 || run.has_x64,
        run.has_x86 ==> files.contains_key(api_name(Arch::X86)),
        run.has_x64 ==> files.contains_key(api_name(Arch::X64)),
        !files.contains_key(orig_name(Arch::X86)),
        !files.contains_key(orig_name(Arch::X64)),
        !files.contains_key(backup_name(Arch::X86)),
        !files.contains_key(backup_name(Arch::X64)),
        !files.contains_key(config_name()),
        0 <= t < dirs.len(),
        dirs[t] == install(run, files, cream_x86, cream_x64).3,
    ensures
        install(run, files, cream_x86, cream_x64).1,
        removal(dirs).2,
        removal(dirs).3[t] == files,
        remove_pending_at(dirs.len() as int, removal(dirs).0, removal(dirs).1, removal(dirs).2)
            == RemoveActionView::Finish(true, "CreamAPI removed, original DLLs restored"@),
{
    lemma_names_distinct();
    lemma_install_outcome(run, files, cream_x86, cream_x64);
    lemma_removal_cleans_every_directory(dirs);
    let installed = dirs[t];
    assert(has_original(installed));
    assert(cleaned(installed) =~= files);
}

/// Removing twice changes nothing the second time: the second removal
/// leaves every directory as the first left it and reports that no
/// installation was found.
pub proof fn lemma_second_removal_changes_nothing(dirs: Seq<Map<Seq<char>, FileData>>)
    ensures
        removal(removal(dirs).3).3 == removal(dirs).3,
        !removal(removal(dirs).3).2,
        remove_pending_at(
            dirs.len() as int,
            removal(removal(dirs).3).0,
            removal(removal(dirs).3).1,
            removal(removal(dirs).3).2,
        ) == RemoveActionView::Finish(false, "No CreamAPI installation found to remove"@),
{
    lemma_names_distinct();
    lemma_removal_cleans_every_directory(dirs);
    let once = removal(dirs).3;
    lemma_removal_cleans_every_directory(once);
    assert forall|i: int| 0 <= i < once.len() implies cleaned(#[trigger] once[i]) == once[i]
        && !has_original(once[i]) by {
        assert(cleaned(cleaned(dirs[i])) =~= cleaned(dirs[i]));
    }
    assert(Seq::new(once.len(), |i: int| cleaned(once[i])) =~= once);
}

} // verus!
