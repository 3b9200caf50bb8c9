//! Installing and removing CreamAPI in a game directory: the text of
//! `cream_api.ini`, the order of the steps and the messages that report them.
use vstd::prelude::*;

use crate::number::{decimal, push_decimal};
use crate::steam::DllProbe;

verus! {

/// A DLC to unlock: its app id and the name written beside it.
#[derive(Debug)]
pub struct DlcEntry {
    pub app_id: u32,
    pub name: String,
}

/// How an install or removal went, with a message for the user.
#[derive(Debug)]
pub struct ApplyResult {
    pub success: bool,
    pub message: String,
}

/// Whether the CreamAPI DLLs are present in the resource directory.
#[derive(Debug)]
pub struct DllStatus {
    pub dll_dir: String,
    pub has_x86: bool,
    pub has_x64: bool,
}

/// A string with the characters of `s`.
pub fn text(s: &str) -> (r: String)
    ensures
        r@ == s@,
{
    let mut r = String::new();
    r.append(s);
    r
}

/// A copy of an outcome.
pub fn copy_result(r: &ApplyResult) -> (c: ApplyResult)
    ensures
        c == *r,
{
    ApplyResult { success: r.success, message: r.message.clone() }
}

// ---------------------------------------------------------------------------
// cream_api.ini

pub open spec fn bool_text(b: bool) -> Seq<char> {
    if b {
        "true"@
    } else {
        "false"@
    }
}

/// The `[dlc]` lines: `<app id> = <name>` for each DLC, in order.
pub open spec fn dlc_lines(dlcs: Seq<DlcEntry>) -> Seq<char>
    decreases dlcs.len(),
{
    if dlcs.len() == 0 {
        Seq::empty()
    } else {
        dlc_lines(dlcs.drop_last()) + decimal(dlcs.last().app_id as nat) + " = "@
            + dlcs.last().name@ + "\n"@
    }
}

/// The text of `cream_api.ini`. Every DLC is unlocked where none is listed;
/// the `[dlc]` section is there only where some are.
pub open spec fn cream_api_ini(
    app_id: u32,
    dlcs: Seq<DlcEntry>,
    offline: bool,
    extra_protection: bool,
) -> Seq<char> {
    "[steam]\nappid = "@ + decimal(app_id as nat) + "\nunlockall = "@ + bool_text(dlcs.len() == 0)
        + "\norgapi = steam_api_o.dll\norgapi64 = steam_api64_o.dll\nextraprotection = "@
        + bool_text(extra_protection) + "\n\n[steam_misc]\nforceoffline = "@ + bool_text(offline)
        + "\n"@ + (if dlcs.len() == 0 {
        Seq::empty()
    } else {
        "\n[dlc]\n"@ + dlc_lines(dlcs)
    })
}

fn append_bool(s: &mut String, b: bool)
    ensures
        final(s)@ == old(s)@ + bool_text(b),
{
    if b {
        s.append("true");
    } else {
        s.append("false");
    }
}

/// The text of `cream_api.ini` for a game and the DLCs chosen for it.
pub fn config_text(app_id: u32, dlcs: &[DlcEntry], offline: bool, extra_protection: bool) -> (r:
    String)
    ensures
        r@ == cream_api_ini(app_id, dlcs@, offline, extra_protection),
{
    let mut s = String::new();
    s.append("[steam]\nappid = ");
    push_decimal(&mut s, app_id as u64);
    s.append("\nunlockall = ");
    append_bool(&mut s, dlcs.len() == 0);
    s.append("\norgapi = steam_api_o.dll\norgapi64 = steam_api64_o.dll\nextraprotection = ");
    append_bool(&mut s, extra_protection);
    s.append("\n\n[steam_misc]\nforceoffline = ");
    append_bool(&mut s, offline);
    s.append("\n");
    let ghost head = s@;
    if dlcs.len() > 0 {
        s.append("\n[dlc]\n");
        let ghost mid = s@;
        let mut i: usize = 0;
        while i < dlcs.len()
            invariant
                i <= dlcs@.len(),
                s@ == mid + dlc_lines(dlcs@.take(i as int)),
            decreases dlcs@.len() - i,
        {
            assert(dlcs@.take(i + 1).drop_last() == dlcs@.take(i as int));
            assert(dlcs@.take(i + 1).last() == dlcs@[i as int]);
            push_decimal(&mut s, dlcs[i].app_id as u64);
            s.append(" = ");
            s.append(dlcs[i].name.as_str());
            s.append("\n");
            i = i + 1;
            assert(s@ =~= mid + dlc_lines(dlcs@.take(i as int)));
        }
        assert(dlcs@.take(dlcs@.len() as int) == dlcs@);
        assert(s@ =~= head + ("\n[dlc]\n"@ + dlc_lines(dlcs@)));
    } else {
        assert(s@ =~= head + Seq::<char>::empty());
    }
    s
}


/// The line of a DLC in the `[dlc]` section, without its line end.
proof fn lemma_dlc_line_at(dlcs: Seq<DlcEntry>, k: int) -> (p: int)
    requires
        0 <= k < dlcs.len(),
    ensures
        0 <= p,
        p + (decimal(dlcs[k].app_id as nat) + " = "@ + dlcs[k].name@ + "\n"@).len() <= dlc_lines(
            dlcs,
        ).len(),
        dlc_lines(dlcs).subrange(
            p,
            p + (decimal(dlcs[k].app_id as nat) + " = "@ + dlcs[k].name@ + "\n"@).len(),
        ) == decimal(dlcs[k].app_id as nat) + " = "@ + dlcs[k].name@ + "\n"@,
        p > 0 ==> dlc_lines(dlcs)[p - 1] == '\n',
    decreases dlcs.len(),
{
    reveal_strlit("\n");
    let n = dlcs.len();
    let d = dlcs.drop_last();
    let line = decimal(dlcs[k].app_id as nat) + " = "@ + dlcs[k].name@ + "\n"@;
    let last = decimal(dlcs.last().app_id as nat) + " = "@ + dlcs.last().name@ + "\n"@;
    assert(dlc_lines(dlcs) =~= dlc_lines(d) + last);
    if k == n - 1 {
        let p = dlc_lines(d).len() as int;
        assert(dlc_lines(dlcs).subrange(p, p + line.len()) =~= line);
        if p > 0 {
            lemma_dlc_lines_end(d);
        }
        p
    } else {
        assert(d[k] == dlcs[k]);
        let p = lemma_dlc_line_at(d, k);
        assert(dlc_lines(dlcs).subrange(p, p + line.len()) =~= dlc_lines(d).subrange(p, p + line.len()));
        if p > 0 {
            assert(dlc_lines(dlcs)[p - 1] == dlc_lines(d)[p - 1]);
        }
        p
    }
}

proof fn lemma_dlc_lines_end(dlcs: Seq<DlcEntry>)
    requires
        dlc_lines(dlcs).len() > 0,
    ensures
        dlc_lines(dlcs).last() == '\n',
{
    reveal_strlit("\n");
    assert(dlcs.len() > 0);
}

/// `cream_api.ini` begins with the app id, unlocks every DLC exactly where
/// none was chosen (`unlockall = false` for any chosen DLC, `unlockall =
/// true` for none), and names the set-aside originals of both DLLs.
pub proof fn lemma_ini_unlocks_all_only_without_dlcs(
    app_id: u32,
    dlcs: Seq<DlcEntry>,
    offline: bool,
    extra_protection: bool,
)
    ensures
        dlcs.len() > 0 ==> exists|rest: Seq<char>|
            cream_api_ini(app_id, dlcs, offline, extra_protection) == "[steam]\nappid = "@ + decimal(
                app_id as nat,
            ) + "\nunlockall = false\norgapi = steam_api_o.dll\norgapi64 = steam_api64_o.dll\n"@
                + rest,
        dlcs.len() == 0 ==> exists|rest: Seq<char>|
            cream_api_ini(app_id, dlcs, offline, extra_protection) == "[steam]\nappid = "@ + decimal(
                app_id as nat,
            ) + "\nunlockall = true\norgapi = steam_api_o.dll\norgapi64 = steam_api64_o.dll\n"@
                + rest,
{
    reveal_strlit("\nunlockall = ");
    reveal_strlit("false");
    reveal_strlit("true");
    reveal_strlit("\nunlockall = false\norgapi = steam_api_o.dll\norgapi64 = steam_api64_o.dll\n");
    reveal_strlit("\nunlockall = true\norgapi = steam_api_o.dll\norgapi64 = steam_api64_o.dll\n");
    reveal_strlit("\norgapi = steam_api_o.dll\norgapi64 = steam_api64_o.dll\nextraprotection = ");
    reveal_strlit("\norgapi = steam_api_o.dll\norgapi64 = steam_api64_o.dll\n");
    let t = cream_api_ini(app_id, dlcs, offline, extra_protection);
    let head = "[steam]\nappid = "@ + decimal(app_id as nat);
    let orgapi = "\norgapi = steam_api_o.dll\norgapi64 = steam_api64_o.dll\nextraprotection = "@;
    let lines = "\norgapi = steam_api_o.dll\norgapi64 = steam_api64_o.dll\n"@;
    let tail = bool_text(extra_protection) + "\n\n[steam_misc]\nforceoffline = "@ + bool_text(offline)
        + "\n"@ + (if dlcs.len() == 0 {
        Seq::empty()
    } else {
        "\n[dlc]\n"@ + dlc_lines(dlcs)
    });
    let rest = orgapi.skip(lines.len() as int) + tail;
    assert(orgapi =~= lines + orgapi.skip(lines.len() as int));
    if dlcs.len() > 0 {
        assert("\nunlockall = false\norgapi = steam_api_o.dll\norgapi64 = steam_api64_o.dll\n"@
            =~= "\nunlockall = "@ + "false"@ + lines);
        assert(t =~= head + "\nunlockall = false\norgapi = steam_api_o.dll\norgapi64 = steam_api64_o.dll\n"@
            + rest);
    } else {
        assert("\nunlockall = true\norgapi = steam_api_o.dll\norgapi64 = steam_api64_o.dll\n"@
            =~= "\nunlockall = "@ + "true"@ + lines);
        assert(t =~= head + "\nunlockall = true\norgapi = steam_api_o.dll\norgapi64 = steam_api64_o.dll\n"@
            + rest);
    }
}

/// The two flags stand in `cream_api.ini` as chosen: `extraprotection` and,
/// in `[steam_misc]`, `forceoffline`, each `true` or `false`; the file ends
/// there where no DLC was chosen, and goes on with the `[dlc]` section
/// where some were.
pub proof fn lemma_ini_flags(app_id: u32, dlcs: Seq<DlcEntry>, offline: bool, extra_protection: bool)
    ensures
        exists|pre: Seq<char>|
            cream_api_ini(app_id, dlcs, offline, extra_protection) == pre
                + "\nextraprotection = "@ + (if extra_protection {
                "true"@
            } else {
                "false"@
            }) + "\n\n[steam_misc]\nforceoffline = "@ + (if offline {
                "true"@
            } else {
                "false"@
            }) + "\n"@ + (if dlcs.len() == 0 {
                Seq::<char>::empty()
            } else {
                "\n[dlc]\n"@ + dlc_lines(dlcs)
            }),
{
    reveal_strlit("\norgapi = steam_api_o.dll\norgapi64 = steam_api64_o.dll\nextraprotection = ");
    reveal_strlit("\nextraprotection = ");
    let orgapi = "\norgapi = steam_api_o.dll\norgapi64 = steam_api64_o.dll\nextraprotection = "@;
    let ep = "\nextraprotection = "@;
    let cut = orgapi.len() - ep.len();
    assert(orgapi =~= orgapi.take(cut) + ep);
    let pre = "[steam]\nappid = "@ + decimal(app_id as nat) + "\nunlockall = "@ + bool_text(dlcs.len()
        == 0) + orgapi.take(cut);
    let t = cream_api_ini(app_id, dlcs, offline, extra_protection);
    assert(bool_text(extra_protection) == (if extra_protection {
        "true"@
    } else {
        "false"@
    }));
    assert(bool_text(offline) == (if offline {
        "true"@
    } else {
        "false"@
    }));
    assert(t =~= pre + ep + bool_text(extra_protection) + "\n\n[steam_misc]\nforceoffline = "@
        + bool_text(offline) + "\n"@ + (if dlcs.len() == 0 {
        Seq::<char>::empty()
    } else {
        "\n[dlc]\n"@ + dlc_lines(dlcs)
    }));
}

/// Every chosen DLC has its own line `<app id> = <name>` in
/// `cream_api.ini`, between two line ends.
pub proof fn lemma_ini_lists_each_dlc(
    app_id: u32,
    dlcs: Seq<DlcEntry>,
    offline: bool,
    extra_protection: bool,
    k: int,
)
    requires
        0 <= k < dlcs.len(),
    ensures
        exists|p: int|
            0 <= p && p + ("\n"@ + decimal(dlcs[k].app_id as nat) + " = "@ + dlcs[k].name@
                + "\n"@).len() <= cream_api_ini(app_id, dlcs, offline, extra_protection).len()
                && #[trigger] cream_api_ini(app_id, dlcs, offline, extra_protection).subrange(
                p,
                p + ("\n"@ + decimal(dlcs[k].app_id as nat) + " = "@ + dlcs[k].name@ + "\n"@).len(),
            ) == "\n"@ + decimal(dlcs[k].app_id as nat) + " = "@ + dlcs[k].name@ + "\n"@,
{
    reveal_strlit("\n[dlc]\n");
    reveal_strlit("\n");
    let t = cream_api_ini(app_id, dlcs, offline, extra_protection);
    let d = dlc_lines(dlcs);
    let head = "[steam]\nappid = "@ + decimal(app_id as nat) + "\nunlockall = "@ + bool_text(
        dlcs.len() == 0,
    ) + "\norgapi = steam_api_o.dll\norgapi64 = steam_api64_o.dll\nextraprotection = "@ + bool_text(
        extra_protection,
    ) + "\n\n[steam_misc]\nforceoffline = "@ + bool_text(offline) + "\n"@ + "\n[dlc]\n"@;
    assert(t =~= head + d);
    let line = decimal(dlcs[k].app_id as nat) + " = "@ + dlcs[k].name@ + "\n"@;
    let q = lemma_dlc_line_at(dlcs, k);
    let p = head.len() + q - 1;
    assert(head.len() >= 1 && head.last() == '\n');
    assert(t.subrange(p, p + 1 + line.len()) =~= seq!['\n'] + line) by {
        assert forall|m: int| 0 <= m < 1 + line.len() implies #[trigger] t.subrange(
            p,
            p + 1 + line.len(),
        )[m] == (seq!['\n'] + line)[m] by {
            if m == 0 {
                if q > 0 {
                    assert(t[p] == d[q - 1]);
                } else {
                    assert(t[p] == head[head.len() - 1]);
                }
            } else {
                assert(t[p + m] == d[q + m - 1]);
                assert(d.subrange(q, q + line.len())[m - 1] == line[m - 1]);
            }
        }
    }
    let full = "\n"@ + decimal(dlcs[k].app_id as nat) + " = "@ + dlcs[k].name@ + "\n"@;
    assert(full =~= seq!['\n'] + line);
    assert(full.len() == 1 + line.len());
    assert(0 <= p && p + full.len() <= t.len());
    assert(t.subrange(p, p + full.len()) == full);
}


// ---------------------------------------------------------------------------
// Installing: the steps in order

/// One of the two Steam API DLLs: the 32-bit `steam_api.dll` or the 64-bit
/// `steam_api64.dll`.
#[derive(Debug, Clone, Copy, PartialEq, Eq, Structural)]
pub enum Arch {
    X86,
    X64,
}

pub open spec fn api_name(a: Arch) -> Seq<char> {
    match a {
        Arch::X86 => "steam_api.dll"@,
        Arch::X64 => "steam_api64.dll"@,
    }
}

/// The name under which the game's own DLL is set aside.
pub open spec fn orig_name(a: Arch) -> Seq<char> {
    match a {
        Arch::X86 => "steam_api_o.dll"@,
        Arch::X64 => "steam_api64_o.dll"@,
    }
}

/// The name of the copy made before anything is replaced.
pub open spec fn backup_name(a: Arch) -> Seq<char> {
    match a {
        Arch::X86 => "steam_api.dll.backup"@,
        Arch::X64 => "steam_api64.dll.backup"@,
    }
}

/// The words before any message about replacing a DLL.
pub open spec fn replace_failure(a: Arch) -> Seq<char> {
    match a {
        Arch::X86 => "Failed to apply x86 DLL: "@,
        Arch::X64 => "Failed to apply x64 DLL: "@,
    }
}

fn api_str(a: Arch) -> (r: &'static str)
    ensures
        r@ == api_name(a),
{
    match a {
        Arch::X86 => "steam_api.dll",
        Arch::X64 => "steam_api64.dll",
    }
}

fn orig_str(a: Arch) -> (r: &'static str)
    ensures
        r@ == orig_name(a),
{
    match a {
        Arch::X86 => "steam_api_o.dll",
        Arch::X64 => "steam_api64_o.dll",
    }
}

fn backup_str(a: Arch) -> (r: &'static str)
    ensures
        r@ == backup_name(a),
{
    match a {
        Arch::X86 => "steam_api.dll.backup",
        Arch::X64 => "steam_api64.dll.backup",
    }
}

fn replace_failure_str(a: Arch) -> (r: &'static str)
    ensures
        r@ == replace_failure(a),
{
    match a {
        Arch::X86 => "Failed to apply x86 DLL: ",
        Arch::X64 => "Failed to apply x64 DLL: ",
    }
}

/// Where an install stands: the step whose outcome it waits for. The DLL
/// steps come in this order for each requested DLL, the 32-bit one first.
#[derive(Debug, Clone, Copy, PartialEq, Eq, Structural)]
pub enum ApplyStage {
    /// Whether the game directory exists.
    CheckGameDir,
    /// Whether the CreamAPI DLL is in the resource directory.
    CheckCreamDll(Arch),
    /// Reading the CreamAPI DLL.
    ReadCreamDll(Arch),
    /// Whether the game's DLL is in the target directory.
    CheckApiDll(Arch),
    /// Whether the game's original DLL was set aside by an earlier install.
    CheckOrigDll(Arch),
    /// Copying the set-aside original to the backup.
    BackupOrigDll(Arch),
    /// Copying the game's DLL, the original, to the backup.
    BackupApiDll(Arch),
    /// Setting the game's DLL aside by renaming it.
    RenameApiDll(Arch),
    /// Writing the CreamAPI DLL in place of the game's.
    WriteCreamDll(Arch),
    /// Creating `cream_api.ini`.
    CreateConfig,
    /// Writing `cream_api.ini`.
    WriteConfig,
    /// Finished; the outcome is in `result`.
    Done,
}

/// An install of CreamAPI into one game, driven step by step: the caller
/// performs each action that `apply` hands out and reports its outcome.
#[derive(Debug)]
pub struct ApplyRun {
    pub install_dir: String,
    pub has_x86: bool,
    pub has_x64: bool,
    pub app_id: u32,
    pub dlcs: Vec<DlcEntry>,
    pub offline: bool,
    pub extra_protection: bool,
    pub stage: ApplyStage,
    /// The outcome, once `stage` is `Done`.
    pub result: ApplyResult,
}

/// What the caller reports of the last action.
#[derive(Debug)]
pub enum ApplyEvent {
    /// Whether the game directory exists. Where it does, the caller has also
    /// chosen the target directory, the one that holds the Steam API DLLs.
    GameDirChecked(bool),
    /// Whether the file asked about exists, with the path that messages
    /// show: the CreamAPI DLL's own path, or the target directory for a file
    /// of the game.
    FileChecked { exists: bool, shown_path: String },
    /// The action was carried out, or the error that it met, as displayed.
    Performed(Result<(), String>),
}

/// What the caller is to do next. File names of the game are in the target
/// directory; those of CreamAPI are in the resource directory.
#[derive(Debug)]
pub enum ApplyAction {
    /// Check whether the game directory exists.
    CheckGameDir,
    /// Check whether this CreamAPI DLL exists.
    CheckCreamDll { file_name: String },
    /// Read this CreamAPI DLL.
    ReadCreamDll { file_name: String },
    /// Check whether this file of the game exists.
    CheckGameFile { file_name: String },
    /// Copy a file of the game.
    CopyGameFile { from: String, to: String },
    /// Rename a file of the game.
    RenameGameFile { from: String, to: String },
    /// Write the CreamAPI DLL read last to this file of the game.
    WriteCreamDll { file_name: String },
    /// Create (or empty) `cream_api.ini` in the target directory.
    CreateConfig,
    /// Write these contents to the `cream_api.ini` just created.
    WriteConfig { contents: String },
    /// The install is over.
    Finish(ApplyResult),
}

/// An action, its strings taken by their characters.
pub enum ApplyActionView {
    CheckGameDir,
    CheckCreamDll(Seq<char>),
    ReadCreamDll(Seq<char>),
    CheckGameFile(Seq<char>),
    CopyGameFile(Seq<char>, Seq<char>),
    RenameGameFile(Seq<char>, Seq<char>),
    WriteCreamDll(Seq<char>),
    CreateConfig,
    WriteConfig(Seq<char>),
    Finish(bool, Seq<char>),
}

impl View for ApplyAction {
    type V = ApplyActionView;

    open spec fn view(&self) -> ApplyActionView {
        match self {
            ApplyAction::CheckGameDir => ApplyActionView::CheckGameDir,
            ApplyAction::CheckCreamDll { file_name } => ApplyActionView::CheckCreamDll(file_name@),
            ApplyAction::ReadCreamDll { file_name } => ApplyActionView::ReadCreamDll(file_name@),
            ApplyAction::CheckGameFile { file_name } => ApplyActionView::CheckGameFile(file_name@),
            ApplyAction::CopyGameFile { from, to } => ApplyActionView::CopyGameFile(from@, to@),
            ApplyAction::RenameGameFile { from, to } => ApplyActionView::RenameGameFile(from@, to@),
            ApplyAction::WriteCreamDll { file_name } => ApplyActionView::WriteCreamDll(file_name@),
            ApplyAction::CreateConfig => ApplyActionView::CreateConfig,
            ApplyAction::WriteConfig { contents } => ApplyActionView::WriteConfig(contents@),
            ApplyAction::Finish(r) => ApplyActionView::Finish(r.success, r.message@),
        }
    }
}

/// What the caller reported, its strings taken by their characters.
pub enum ApplyEventView {
    GameDirChecked(bool),
    FileChecked(bool, Seq<char>),
    Performed(Result<(), Seq<char>>),
}

impl View for ApplyEvent {
    type V = ApplyEventView;

    open spec fn view(&self) -> ApplyEventView {
        match self {
            ApplyEvent::GameDirChecked(exists) => ApplyEventView::GameDirChecked(*exists),
            ApplyEvent::FileChecked { exists, shown_path } => ApplyEventView::FileChecked(
                *exists,
                shown_path@,
            ),
            ApplyEvent::Performed(r) => ApplyEventView::Performed(
                match r {
                    Ok(()) => Ok(()),
                    Err(e) => Err(e@),
                },
            ),
        }
    }
}

/// The action that a run of these settings waits on in `stage`, where
/// `ok` and `msg` are its outcome so far.
pub open spec fn pending_at(run: ApplyRun, stage: ApplyStage, ok: bool, msg: Seq<char>) -> ApplyActionView {
    match stage {
        ApplyStage::CheckGameDir => ApplyActionView::CheckGameDir,
        ApplyStage::CheckCreamDll(a) => ApplyActionView::CheckCreamDll(api_name(a)),
        ApplyStage::ReadCreamDll(a) => ApplyActionView::ReadCreamDll(api_name(a)),
        ApplyStage::CheckApiDll(a) => ApplyActionView::CheckGameFile(api_name(a)),
        ApplyStage::CheckOrigDll(a) => ApplyActionView::CheckGameFile(orig_name(a)),
        ApplyStage::BackupOrigDll(a) => ApplyActionView::CopyGameFile(orig_name(a), backup_name(a)),
        ApplyStage::BackupApiDll(a) => ApplyActionView::CopyGameFile(api_name(a), backup_name(a)),
        ApplyStage::RenameApiDll(a) => ApplyActionView::RenameGameFile(api_name(a), orig_name(a)),
        ApplyStage::WriteCreamDll(a) => ApplyActionView::WriteCreamDll(api_name(a)),
        ApplyStage::CreateConfig => ApplyActionView::CreateConfig,
        ApplyStage::WriteConfig => ApplyActionView::WriteConfig(
            cream_api_ini(run.app_id, run.dlcs@, run.offline, run.extra_protection),
        ),
        ApplyStage::Done => ApplyActionView::Finish(ok, msg),
    }
}

/// The action that a run waits on.
pub open spec fn pending(run: ApplyRun) -> ApplyActionView {
    pending_at(run, run.stage, run.result.success, run.result.message@)
}

/// The stage after the DLL `a` is in place (or, for the 32-bit DLL, where
/// it is not requested): the 64-bit DLL where requested, then the config.
pub open spec fn after_dll(has_x64: bool, a: Arch) -> ApplyStage {
    if a == Arch::X86 && has_x64 {
        ApplyStage::CheckCreamDll(Arch::X64)
    } else {
        ApplyStage::CreateConfig
    }
}

/// The stage, success flag and message after an event, for a run of these
/// settings that stands in `stage` with outcome `ok` and `msg` so far. An
/// event that the stage does not wait for changes nothing.
pub open spec fn step(
    run: ApplyRun,
    stage: ApplyStage,
    ok: bool,
    msg: Seq<char>,
    ev: ApplyEventView,
) -> (ApplyStage, bool, Seq<char>) {
    let same = (stage, ok, msg);
    match stage {
        ApplyStage::CheckGameDir => match ev {
            ApplyEventView::GameDirChecked(exists) => if !exists {
                (ApplyStage::Done, false, "Game directory not found: "@ + run.install_dir@)
            } else if run.has_x86 {
                (ApplyStage::CheckCreamDll(Arch::X86), ok, msg)
            } else {
                (after_dll(run.has_x64, Arch::X86), ok, msg)
            },
            _ => same,
        },
        ApplyStage::CheckCreamDll(a) => match ev {
            ApplyEventView::FileChecked(exists, shown_path) => if exists {
                (ApplyStage::ReadCreamDll(a), ok, msg)
            } else {
                (
                    ApplyStage::Done,
                    false,
                    "CreamAPI DLL not found: "@ + api_name(a) + "\nExpected at: "@ + shown_path,
                )
            },
            _ => same,
        },
        ApplyStage::ReadCreamDll(a) => match ev {
            ApplyEventView::Performed(Ok(())) => (ApplyStage::CheckApiDll(a), ok, msg),
            ApplyEventView::Performed(Err(e)) => (
                ApplyStage::Done,
                false,
                "Failed to read "@ + api_name(a) + ": "@ + e,
            ),
            _ => same,
        },
        ApplyStage::CheckApiDll(a) => match ev {
            ApplyEventView::FileChecked(exists, shown_path) => if exists {
                (ApplyStage::CheckOrigDll(a), ok, msg)
            } else {
                (
                    ApplyStage::Done,
                    false,
                    replace_failure(a) + api_name(a) + " not found in "@ + shown_path,
                )
            },
            _ => same,
        },
        ApplyStage::CheckOrigDll(a) => match ev {
            ApplyEventView::FileChecked(exists, _) => if exists {
                (ApplyStage::BackupOrigDll(a), ok, msg)
            } else {
                (ApplyStage::BackupApiDll(a), ok, msg)
            },
            _ => same,
        },
        ApplyStage::BackupOrigDll(a) => match ev {
            ApplyEventView::Performed(Ok(())) => (ApplyStage::WriteCreamDll(a), ok, msg),
            ApplyEventView::Performed(Err(e)) => (
                ApplyStage::Done,
                false,
                replace_failure(a) + "Failed to create backup: "@ + e,
            ),
            _ => same,
        },
        ApplyStage::BackupApiDll(a) => match ev {
            ApplyEventView::Performed(Ok(())) => (ApplyStage::RenameApiDll(a), ok, msg),
            ApplyEventView::Performed(Err(e)) => (
                ApplyStage::Done,
                false,
                replace_failure(a) + "Failed to create backup: "@ + e,
            ),
            _ => same,
        },
        ApplyStage::RenameApiDll(a) => match ev {
            ApplyEventView::Performed(Ok(())) => (ApplyStage::WriteCreamDll(a), ok, msg),
            ApplyEventView::Performed(Err(e)) => (
                ApplyStage::Done,
                false,
                replace_failure(a) + "Failed to rename original: "@ + e,
            ),
            _ => same,
        },
        ApplyStage::WriteCreamDll(a) => match ev {
            ApplyEventView::Performed(Ok(())) => (after_dll(run.has_x64, a), ok, msg),
            ApplyEventView::Performed(Err(e)) => (
                ApplyStage::Done,
                false,
                replace_failure(a) + "Failed to write CreamAPI DLL: "@ + e,
            ),
            _ => same,
        },
        ApplyStage::CreateConfig => match ev {
            ApplyEventView::Performed(Ok(())) => (ApplyStage::WriteConfig, ok, msg),
            ApplyEventView::Performed(Err(e)) => (
                ApplyStage::Done,
                false,
                "Failed to write config: Failed to create config: "@ + e,
            ),
            _ => same,
        },
        ApplyStage::WriteConfig => match ev {
            ApplyEventView::Performed(Ok(())) => (
                ApplyStage::Done,
                true,
                success_message(run.dlcs@.len()),
            ),
            ApplyEventView::Performed(Err(e)) => (
                ApplyStage::Done,
                false,
                "Failed to write config: Failed to write config: "@ + e,
            ),
            _ => same,
        },
        ApplyStage::Done => same,
    }
}

/// The message of a successful install of `count` DLCs.
pub open spec fn success_message(count: nat) -> Seq<char> {
    "CreamAPI applied successfully with "@ + decimal(count) + " DLCs"@
}

/// The stage, success flag and message of a run after an event.
pub open spec fn next(run: ApplyRun, ev: ApplyEvent) -> (ApplyStage, bool, Seq<char>) {
    step(run, run.stage, run.result.success, run.result.message@, ev@)
}

impl ApplyRun {
    /// A new install, waiting for the check of the game directory.
    pub fn new(
        install_dir: String,
        has_x86: bool,
        has_x64: bool,
        app_id: u32,
        dlcs: Vec<DlcEntry>,
        offline: bool,
        extra_protection: bool,
    ) -> (r: ApplyRun)
        ensures
            r.install_dir == install_dir,
            r.has_x86 == has_x86,
            r.has_x64 == has_x64,
            r.app_id == app_id,
            r.dlcs == dlcs,
            r.offline == offline,
            r.extra_protection == extra_protection,
            r.stage == ApplyStage::CheckGameDir,
            !r.result.success,
            r.result.message@ == Seq::<char>::empty(),
    {
        ApplyRun {
            install_dir,
            has_x86,
            has_x64,
            app_id,
            dlcs,
            offline,
            extra_protection,
            stage: ApplyStage::CheckGameDir,
            result: ApplyResult { success: false, message: String::new() },
        }
    }

    /// The action that the run waits on.
    pub fn pending_action(&self) -> (a: ApplyAction)
        ensures
            a@ == pending(*self),
    {
        match self.stage {
            ApplyStage::CheckGameDir => ApplyAction::CheckGameDir,
            ApplyStage::CheckCreamDll(a) => ApplyAction::CheckCreamDll {
                file_name: text(api_str(a)),
            },
            ApplyStage::ReadCreamDll(a) => ApplyAction::ReadCreamDll {
                file_name: text(api_str(a)),
            },
            ApplyStage::CheckApiDll(a) => ApplyAction::CheckGameFile {
                file_name: text(api_str(a)),
            },
            ApplyStage::CheckOrigDll(a) => ApplyAction::CheckGameFile {
                file_name: text(orig_str(a)),
            },
            ApplyStage::BackupOrigDll(a) => ApplyAction::CopyGameFile {
                from: text(orig_str(a)),
                to: text(backup_str(a)),
            },
            ApplyStage::BackupApiDll(a) => ApplyAction::CopyGameFile {
                from: text(api_str(a)),
                to: text(backup_str(a)),
            },
            ApplyStage::RenameApiDll(a) => ApplyAction::RenameGameFile {
                from: text(api_str(a)),
                to: text(orig_str(a)),
            },
            ApplyStage::WriteCreamDll(a) => ApplyAction::WriteCreamDll {
                file_name: text(api_str(a)),
            },
            ApplyStage::CreateConfig => ApplyAction::CreateConfig,
            ApplyStage::WriteConfig => ApplyAction::WriteConfig {
                contents: config_text(
                    self.app_id,
                    self.dlcs.as_slice(),
                    self.offline,
                    self.extra_protection,
                ),
            },
            ApplyStage::Done => ApplyAction::Finish(copy_result(&self.result)),
        }
    }
}

fn finish(run: &mut ApplyRun, success: bool, message: String)
    ensures
        final(run).stage == ApplyStage::Done,
        final(run).result.success == success,
        final(run).result.message == message,
        final(run).install_dir == old(run).install_dir,
        final(run).has_x86 == old(run).has_x86,
        final(run).has_x64 == old(run).has_x64,
        final(run).app_id == old(run).app_id,
        final(run).dlcs == old(run).dlcs,
        final(run).offline == old(run).offline,
        final(run).extra_protection == old(run).extra_protection,
{
    run.stage = ApplyStage::Done;
    run.result = ApplyResult { success, message };
}

fn message2(a: &str, b: &str) -> (r: String)
    ensures
        r@ == a@ + b@,
{
    let mut r = text(a);
    r.append(b);
    r
}

fn message3(a: &str, b: &str, c: &str) -> (r: String)
    ensures
        r@ == a@ + b@ + c@,
{
    let mut r = message2(a, b);
    r.append(c);
    r
}

fn message4(a: &str, b: &str, c: &str, d: &str) -> (r: String)
    ensures
        r@ == a@ + b@ + c@ + d@,
{
    let mut r = message3(a, b, c);
    r.append(d);
    r
}

fn after_dll_exec(has_x64: bool, a: Arch) -> (r: ApplyStage)
    ensures
        r == after_dll(has_x64, a),
{
    match a {
        Arch::X86 => if has_x64 {
            ApplyStage::CheckCreamDll(Arch::X64)
        } else {
            ApplyStage::CreateConfig
        },
        Arch::X64 => ApplyStage::CreateConfig,
    }
}

/// Advances an install by the outcome of the last action and returns the
/// next action. Checks the game directory; then for each requested DLL, the
/// 32-bit one first: checks for and reads the CreamAPI DLL, checks for the
/// game's DLL and for an original that an earlier install set aside; copies
/// that original to the backup where there is one, else copies the game's
/// DLL to the backup and sets it aside by renaming it; and writes the
/// CreamAPI DLL in its place; then
/// creates and writes `cream_api.ini`. The first failure ends the install
/// with its message.
pub fn apply(run: &mut ApplyRun, event: ApplyEvent) -> (action: ApplyAction)
    ensures
        final(run).stage == next(*old(run), event).0,
        final(run).result.success == next(*old(run), event).1,
        final(run).result.message@ == next(*old(run), event).2,
        final(run).install_dir == old(run).install_dir,
        final(run).has_x86 == old(run).has_x86,
        final(run).has_x64 == old(run).has_x64,
        final(run).app_id == old(run).app_id,
        final(run).dlcs == old(run).dlcs,
        final(run).offline == old(run).offline,
        final(run).extra_protection == old(run).extra_protection,
        action@ == pending(*final(run)),
{
    match run.stage {
        ApplyStage::CheckGameDir => match &event {
            ApplyEvent::GameDirChecked(exists) => {
                if !*exists {
                    let m = message2("Game directory not found: ", run.install_dir.as_str());
                    finish(run, false, m);
                } else if run.has_x86 {
                    run.stage = ApplyStage::CheckCreamDll(Arch::X86);
                } else {
                    run.stage = after_dll_exec(run.has_x64, Arch::X86);
                }
            },
            _ => {},
        },
        ApplyStage::CheckCreamDll(a) => match &event {
            ApplyEvent::FileChecked { exists, shown_path } => {
                if *exists {
                    run.stage = ApplyStage::ReadCreamDll(a);
                } else {
                    let m = message4("CreamAPI DLL not found: ", api_str(a), "\nExpected at: ", shown_path.as_str());
                    finish(run, false, m);
                }
            },
            _ => {},
        },
        ApplyStage::ReadCreamDll(a) => match &event {
            ApplyEvent::Performed(Ok(())) => {
                run.stage = ApplyStage::CheckApiDll(a);
            },
            ApplyEvent::Performed(Err(e)) => {
                let m = message4("Failed to read ", api_str(a), ": ", e.as_str());
                finish(run, false, m);
            },
            _ => {},
        },
        ApplyStage::CheckApiDll(a) => match &event {
            ApplyEvent::FileChecked { exists, shown_path } => {
                if *exists {
                    run.stage = ApplyStage::CheckOrigDll(a);
                } else {
                    let m = message4(replace_failure_str(a), api_str(a), " not found in ", shown_path.as_str());
                    finish(run, false, m);
                }
            },
            _ => {},
        },
        ApplyStage::CheckOrigDll(a) => match &event {
            ApplyEvent::FileChecked { exists, shown_path: _ } => {
                if *exists {
                    run.stage = ApplyStage::BackupOrigDll(a);
                } else {
                    run.stage = ApplyStage::BackupApiDll(a);
                }
            },
            _ => {},
        },
        ApplyStage::BackupOrigDll(a) => match &event {
            ApplyEvent::Performed(Ok(())) => {
                run.stage = ApplyStage::WriteCreamDll(a);
            },
            ApplyEvent::Performed(Err(e)) => {
                let m = message3(replace_failure_str(a), "Failed to create backup: ", e.as_str());
                finish(run, false, m);
            },
            _ => {},
        },
        ApplyStage::BackupApiDll(a) => match &event {
            ApplyEvent::Performed(Ok(())) => {
                run.stage = ApplyStage::RenameApiDll(a);
            },
            ApplyEvent::Performed(Err(e)) => {
                let m = message3(replace_failure_str(a), "Failed to create backup: ", e.as_str());
                finish(run, false, m);
            },
            _ => {},
        },
        ApplyStage::RenameApiDll(a) => match &event {
            ApplyEvent::Performed(Ok(())) => {
                run.stage = ApplyStage::WriteCreamDll(a);
            },
            ApplyEvent::Performed(Err(e)) => {
                let m = message3(replace_failure_str(a), "Failed to rename original: ", e.as_str());
                finish(run, false, m);
            },
            _ => {},
        },
        ApplyStage::WriteCreamDll(a) => match &event {
            ApplyEvent::Performed(Ok(())) => {
                run.stage = after_dll_exec(run.has_x64, a);
            },
            ApplyEvent::Performed(Err(e)) => {
                let m = message3(replace_failure_str(a), "Failed to write CreamAPI DLL: ", e.as_str());
                finish(run, false, m);
            },
            _ => {},
        },
        ApplyStage::CreateConfig => match &event {
            ApplyEvent::Performed(Ok(())) => {
                run.stage = ApplyStage::WriteConfig;
            },
            ApplyEvent::Performed(Err(e)) => {
                let m = message2("Failed to write config: Failed to create config: ", e.as_str());
                finish(run, false, m);
            },
            _ => {},
        },
        ApplyStage::WriteConfig => match &event {
            ApplyEvent::Performed(Ok(())) => {
                let mut m = text("CreamAPI applied successfully with ");
                push_decimal(&mut m, run.dlcs.len() as u64);
                m.append(" DLCs");
                finish(run, true, m);
            },
            ApplyEvent::Performed(Err(e)) => {
                let m = message2("Failed to write config: Failed to write config: ", e.as_str());
                finish(run, false, m);
            },
            _ => {},
        },
        ApplyStage::Done => {},
    }
    run.pending_action()
}

// ---------------------------------------------------------------------------
// Laws of the install

/// An install ends in success only by writing `cream_api.ini` without error.
pub proof fn lemma_success_only_after_config(run: ApplyRun, ev: ApplyEvent)
    requires
        run.stage != ApplyStage::Done,
        next(run, ev).0 == ApplyStage::Done,
        next(run, ev).1,
    ensures
        run.stage == ApplyStage::WriteConfig,
        ev matches ApplyEvent::Performed(Ok(())),
{
}

/// The game's own DLL is set aside (renamed) only after the check found no
/// original set aside yet and the DLL was copied to the backup: an earlier
/// original is never overwritten.
pub proof fn lemma_original_never_overwritten(run: ApplyRun, ev: ApplyEvent, a: Arch)
    requires
        run.stage != ApplyStage::RenameApiDll(a),
        next(run, ev).0 == ApplyStage::RenameApiDll(a),
    ensures
        run.stage == ApplyStage::BackupApiDll(a),
        ev matches ApplyEvent::Performed(Ok(())),
{
}

/// The backup is a copy of the game's original DLL: where an earlier
/// install set the original aside, that set-aside file is what is copied;
/// the game's current DLL is copied only where no original was set aside.
/// The CreamAPI DLL is written only once the backup was made, and, where
/// the game's DLL was the original, only once it was set aside.
pub proof fn lemma_backup_before_replace(run: ApplyRun, ev: ApplyEvent, a: Arch)
    requires
        next(run, ev).0 != run.stage,
    ensures
        next(run, ev).0 == ApplyStage::BackupOrigDll(a) ==> run.stage == ApplyStage::CheckOrigDll(a)
            && ev matches ApplyEvent::FileChecked { exists: true, .. },
        next(run, ev).0 == ApplyStage::BackupApiDll(a) ==> run.stage == ApplyStage::CheckOrigDll(a)
            && ev matches ApplyEvent::FileChecked { exists: false, .. },
        next(run, ev).0 == ApplyStage::CheckOrigDll(a) ==> run.stage == ApplyStage::CheckApiDll(a)
            && ev matches ApplyEvent::FileChecked { exists: true, .. },
        next(run, ev).0 == ApplyStage::WriteCreamDll(a) ==> (run.stage == ApplyStage::BackupOrigDll(a)
            || run.stage == ApplyStage::RenameApiDll(a)) && ev matches ApplyEvent::Performed(Ok(())),
        pending_at(run, ApplyStage::BackupOrigDll(a), run.result.success, run.result.message@)
            == ApplyActionView::CopyGameFile(orig_name(a), backup_name(a)),
        pending_at(run, ApplyStage::BackupApiDll(a), run.result.success, run.result.message@)
            == ApplyActionView::CopyGameFile(api_name(a), backup_name(a)),
{
}

/// `cream_api.ini` is created only once every requested DLL is in place:
/// after the 64-bit DLL was written, after the 32-bit DLL was written where
/// no 64-bit one is requested, or after the game directory was found where
/// neither is requested.
pub proof fn lemma_config_after_all_dlls(run: ApplyRun, ev: ApplyEvent)
    requires
        run.stage != ApplyStage::CreateConfig,
        next(run, ev).0 == ApplyStage::CreateConfig,
    ensures
        (run.stage == ApplyStage::WriteCreamDll(Arch::X64) && ev matches ApplyEvent::Performed(
            Ok(()),
        )) || (run.stage == ApplyStage::WriteCreamDll(Arch::X86) && !run.has_x64
            && ev matches ApplyEvent::Performed(Ok(()))) || (run.stage == ApplyStage::CheckGameDir
            && !run.has_x86 && !run.has_x64 && ev matches ApplyEvent::GameDirChecked(true)),
{
}

/// Only the requested DLLs are handled, the 32-bit one first: the steps of
/// a DLL start only where it is requested, and those of the 64-bit one only
/// after the 32-bit DLL was written or where it is not requested.
pub proof fn lemma_requested_dlls_in_order(run: ApplyRun, ev: ApplyEvent, a: Arch)
    requires
        run.stage != ApplyStage::CheckCreamDll(a),
        next(run, ev).0 == ApplyStage::CheckCreamDll(a),
    ensures
        a == Arch::X86 ==> run.has_x86 && run.stage == ApplyStage::CheckGameDir,
        a == Arch::X64 ==> run.has_x64 && ((run.stage == ApplyStage::WriteCreamDll(Arch::X86)
            && ev matches ApplyEvent::Performed(Ok(()))) || (run.stage == ApplyStage::CheckGameDir
            && !run.has_x86)),
{
}

/// A finished install stays finished, with the same outcome.
pub proof fn lemma_done_is_final(run: ApplyRun, ev: ApplyEvent)
    requires
        run.stage == ApplyStage::Done,
    ensures
        next(run, ev) == (ApplyStage::Done, run.result.success, run.result.message@),
{
}

// ---------------------------------------------------------------------------
// Where the DLLs are, and removal

/// Whether a directory holds one of the DLLs that the install replaces.
pub open spec fn holds_wanted_dll(has_x86: bool, has_x64: bool, p: DllProbe) -> bool {
    (has_x86 && p.has_x86) || (has_x64 && p.has_x64)
}

/// Chooses the directory whose Steam API DLLs the install replaces: the
/// install directory (`None`) where it holds a requested DLL, else the first
/// direct subdirectory, in directory order, that does (`Some(i)`), else the
/// install directory.
pub fn find_steam_api_dir(has_x86: bool, has_x64: bool, root: DllProbe, subdirs: &[DllProbe]) -> (r:
    Option<usize>)
    ensures
        holds_wanted_dll(has_x86, has_x64, root) ==> r is None,
        !holds_wanted_dll(has_x86, has_x64, root) ==> match r {
            Some(i) => i < subdirs@.len() && holds_wanted_dll(has_x86, has_x64, subdirs@[i as int])
                && forall|k: int| 0 <= k < i ==> !holds_wanted_dll(has_x86, has_x64, #[trigger] subdirs@[k]),
            None => forall|k: int|
                0 <= k < subdirs@.len() ==> !holds_wanted_dll(has_x86, has_x64, #[trigger] subdirs@[k]),
        },
{
    if (has_x86 && root.has_x86) || (has_x64 && root.has_x64) {
        return None;
    }
    let mut i: usize = 0;
    while i < subdirs.len()
        invariant
            i <= subdirs@.len(),
            !holds_wanted_dll(has_x86, has_x64, root),
            forall|k: int| 0 <= k < i ==> !holds_wanted_dll(has_x86, has_x64, #[trigger] subdirs@[k]),
        decreases subdirs@.len() - i,
    {
        if (has_x86 && subdirs[i].has_x86) || (has_x64 && subdirs[i].has_x64) {
            return Some(i);
        }
        i = i + 1;
    }
    None
}

/// The places, in order, of the subdirectories that hold an original DLL
/// that CreamAPI set aside.
pub open spec fn applied_places(subdirs: Seq<DllProbe>) -> Seq<usize>
    decreases subdirs.len(),
{
    if subdirs.len() == 0 {
        Seq::empty()
    } else {
        let rest = applied_places(subdirs.drop_last());
        if subdirs.last().applied {
            rest.push((subdirs.len() - 1) as usize)
        } else {
            rest
        }
    }
}

/// The direct subdirectories, besides the install directory itself, from
/// which a removal restores DLLs: those holding a set-aside original.
pub fn get_dirs_to_check(subdirs: &[DllProbe]) -> (r: Vec<usize>)
    ensures
        r@ == applied_places(subdirs@),
{
    let mut r: Vec<usize> = Vec::new();
    let mut i: usize = 0;
    while i < subdirs.len()
        invariant
            i <= subdirs@.len(),
            r@ == applied_places(subdirs@.take(i as int)),
        decreases subdirs@.len() - i,
    {
        assert(subdirs@.take(i + 1).drop_last() == subdirs@.take(i as int));
        assert(subdirs@.take(i + 1).last() == subdirs@[i as int]);
        if subdirs[i].applied {
            r.push(i);
        }
        i = i + 1;
    }
    assert(subdirs@.take(subdirs@.len() as int) == subdirs@);
    r
}

// ---------------------------------------------------------------------------
// Removing: the steps in order

/// A step of a removal in one directory. For each DLL, the 32-bit one
/// first, the set-aside original is put back; then `cream_api.ini` and the
/// backups are deleted.
#[derive(Debug, Clone, Copy, PartialEq, Eq, Structural)]
pub enum RemoveStep {
    /// Whether the set-aside original is there.
    CheckOrig(Arch),
    /// Deleting the CreamAPI DLL.
    RemoveApi(Arch),
    /// Renaming the original back.
    RenameOrig(Arch),
    /// Whether `cream_api.ini` is there.
    CheckConfig,
    /// Deleting `cream_api.ini`.
    RemoveConfig,
    /// Whether the backup is there.
    CheckBackup(Arch),
    /// Deleting the backup.
    RemoveBackup(Arch),
}

/// A removal of CreamAPI from a game, driven step by step over `dir_count`
/// directories: the install directory (0) and the subdirectories that hold a
/// set-aside original.
#[derive(Debug)]
pub struct RemoveRun {
    pub dir_count: usize,
    /// The directory being handled; all are done once it reaches `dir_count`.
    pub dir: usize,
    pub step: RemoveStep,
    /// Whether any original was put back.
    pub restored: bool,
}

/// What the caller reports of the last removal action.
#[derive(Debug)]
pub enum RemoveEvent {
    /// Whether the file asked about exists.
    FileChecked(bool),
    /// The action was carried out, or the error that it met.
    Performed(Result<(), String>),
}

/// What the caller is to do next; `dir` counts the directories of the run.
#[derive(Debug)]
pub enum RemoveAction {
    CheckFile { dir: usize, file_name: String },
    RemoveFile { dir: usize, file_name: String },
    RenameFile { dir: usize, from: String, to: String },
    Finish(ApplyResult),
}

pub enum RemoveActionView {
    CheckFile(int, Seq<char>),
    RemoveFile(int, Seq<char>),
    RenameFile(int, Seq<char>, Seq<char>),
    Finish(bool, Seq<char>),
}

impl View for RemoveAction {
    type V = RemoveActionView;

    open spec fn view(&self) -> RemoveActionView {
        match self {
            RemoveAction::CheckFile { dir, file_name } => RemoveActionView::CheckFile(
                *dir as int,
                file_name@,
            ),
            RemoveAction::RemoveFile { dir, file_name } => RemoveActionView::RemoveFile(
                *dir as int,
                file_name@,
            ),
            RemoveAction::RenameFile { dir, from, to } => RemoveActionView::RenameFile(
                *dir as int,
                from@,
                to@,
            ),
            RemoveAction::Finish(r) => RemoveActionView::Finish(r.success, r.message@),
        }
    }
}

/// The message of a finished removal.
pub open spec fn removal_message(restored: bool) -> Seq<char> {
    if restored {
        "CreamAPI removed, original DLLs restored"@
    } else {
        "No CreamAPI installation found to remove"@
    }
}

/// The action that a removal over `dir_count` directories waits on, in
/// directory `dir` at `step`, with `restored` telling whether an original
/// was put back so far.
pub open spec fn remove_pending_at(dir_count: int, dir: int, step: RemoveStep, restored: bool) -> RemoveActionView {
    if dir >= dir_count {
        RemoveActionView::Finish(restored, removal_message(restored))
    } else {
        match step {
            RemoveStep::CheckOrig(a) => RemoveActionView::CheckFile(dir, orig_name(a)),
            RemoveStep::RemoveApi(a) => RemoveActionView::RemoveFile(dir, api_name(a)),
            RemoveStep::RenameOrig(a) => RemoveActionView::RenameFile(dir, orig_name(a), api_name(a)),
            RemoveStep::CheckConfig => RemoveActionView::CheckFile(dir, "cream_api.ini"@),
            RemoveStep::RemoveConfig => RemoveActionView::RemoveFile(dir, "cream_api.ini"@),
            RemoveStep::CheckBackup(a) => RemoveActionView::CheckFile(dir, backup_name(a)),
            RemoveStep::RemoveBackup(a) => RemoveActionView::RemoveFile(dir, backup_name(a)),
        }
    }
}

/// The action that a removal waits on.
pub open spec fn remove_pending(run: RemoveRun) -> RemoveActionView {
    remove_pending_at(run.dir_count as int, run.dir as int, run.step, run.restored)
}

/// The step after the original of `a` was handled.
pub open spec fn after_restore(a: Arch) -> RemoveStep {
    match a {
        Arch::X86 => RemoveStep::CheckOrig(Arch::X64),
        Arch::X64 => RemoveStep::CheckConfig,
    }
}

/// The directory, step and restored flag after the backup of `a` was
/// handled: the 64-bit backup next, else the next directory.
pub open spec fn after_backup(dir: int, a: Arch) -> (int, RemoveStep) {
    match a {
        Arch::X86 => (dir, RemoveStep::CheckBackup(Arch::X64)),
        Arch::X64 => (dir + 1, RemoveStep::CheckOrig(Arch::X86)),
    }
}

/// The directory, step and restored flag after an event, for a removal
/// over `dir_count` directories that stands in directory `dir` at `step`. The
/// outcome of deleting a file does not matter; an original counts as put
/// back where renaming it succeeded. An event that the step does not wait
/// for, or one after the last directory, changes nothing.
pub open spec fn remove_step(
    dir_count: int,
    dir: int,
    step: RemoveStep,
    restored: bool,
    ev: RemoveEventView,
) -> (int, RemoveStep, bool) {
    let d = dir;
    let r = restored;
    let same = (d, step, r);
    if dir >= dir_count {
        same
    } else {
        match step {
            RemoveStep::CheckOrig(a) => match ev {
                RemoveEventView::FileChecked(exists) => if exists {
                    (d, RemoveStep::RemoveApi(a), r)
                } else {
                    (d, after_restore(a), r)
                },
                _ => same,
            },
            RemoveStep::RemoveApi(a) => match ev {
                RemoveEventView::Performed(_) => (d, RemoveStep::RenameOrig(a), r),
                _ => same,
            },
            RemoveStep::RenameOrig(a) => match ev {
                RemoveEventView::Performed(done) => (d, after_restore(a), r || done),
                _ => same,
            },
            RemoveStep::CheckConfig => match ev {
                RemoveEventView::FileChecked(exists) => if exists {
                    (d, RemoveStep::RemoveConfig, r)
                } else {
                    (d, RemoveStep::CheckBackup(Arch::X86), r)
                },
                _ => same,
            },
            RemoveStep::RemoveConfig => match ev {
                RemoveEventView::Performed(_) => (d, RemoveStep::CheckBackup(Arch::X86), r),
                _ => same,
            },
            RemoveStep::CheckBackup(a) => match ev {
                RemoveEventView::FileChecked(exists) => if exists {
                    (d, RemoveStep::RemoveBackup(a), r)
                } else {
                    (after_backup(d, a).0, after_backup(d, a).1, r)
                },
                _ => same,
            },
            RemoveStep::RemoveBackup(a) => match ev {
                RemoveEventView::Performed(_) => (after_backup(d, a).0, after_backup(d, a).1, r),
                _ => same,
            },
        }
    }
}

/// What the caller reported of a removal action: whether the file exists,
/// or whether the action succeeded.
pub enum RemoveEventView {
    FileChecked(bool),
    Performed(bool),
}

impl View for RemoveEvent {
    type V = RemoveEventView;

    open spec fn view(&self) -> RemoveEventView {
        match self {
            RemoveEvent::FileChecked(exists) => RemoveEventView::FileChecked(*exists),
            RemoveEvent::Performed(r) => RemoveEventView::Performed(r is Ok),
        }
    }
}

/// The directory, step and restored flag of a removal after an event.
pub open spec fn remove_next(run: RemoveRun, ev: RemoveEvent) -> (int, RemoveStep, bool) {
    remove_step(run.dir_count as int, run.dir as int, run.step, run.restored, ev@)
}

fn after_restore_exec(a: Arch) -> (s: RemoveStep)
    ensures
        s == after_restore(a),
{
    match a {
        Arch::X86 => RemoveStep::CheckOrig(Arch::X64),
        Arch::X64 => RemoveStep::CheckConfig,
    }
}

impl RemoveRun {
    /// A new removal over `dir_count` directories, starting with the first.
    pub fn new(dir_count: usize) -> (r: RemoveRun)
        ensures
            r.dir_count == dir_count,
            r.dir == 0,
            r.step == RemoveStep::CheckOrig(Arch::X86),
            !r.restored,
    {
        RemoveRun { dir_count, dir: 0, step: RemoveStep::CheckOrig(Arch::X86), restored: false }
    }

    /// The action that the removal waits on.
    pub fn pending_action(&self) -> (a: RemoveAction)
        ensures
            a@ == remove_pending(*self),
    {
        let d = self.dir;
        if self.dir >= self.dir_count {
            let message = if self.restored {
                text("CreamAPI removed, original DLLs restored")
            } else {
                text("No CreamAPI installation found to remove")
            };
            return RemoveAction::Finish(ApplyResult { success: self.restored, message });
        }
        match self.step {
            RemoveStep::CheckOrig(a) => RemoveAction::CheckFile { dir: d, file_name: text(orig_str(a)) },
            RemoveStep::RemoveApi(a) => RemoveAction::RemoveFile { dir: d, file_name: text(api_str(a)) },
            RemoveStep::RenameOrig(a) => RemoveAction::RenameFile {
                dir: d,
                from: text(orig_str(a)),
                to: text(api_str(a)),
            },
            RemoveStep::CheckConfig => RemoveAction::CheckFile { dir: d, file_name: text("cream_api.ini") },
            RemoveStep::RemoveConfig => RemoveAction::RemoveFile {
                dir: d,
                file_name: text("cream_api.ini"),
            },
            RemoveStep::CheckBackup(a) => RemoveAction::CheckFile {
                dir: d,
                file_name: text(backup_str(a)),
            },
            RemoveStep::RemoveBackup(a) => RemoveAction::RemoveFile {
                dir: d,
                file_name: text(backup_str(a)),
            },
        }
    }
}

fn next_after_backup(run: &mut RemoveRun, a: Arch)
    requires
        old(run).dir < old(run).dir_count,
    ensures
        final(run).dir == after_backup(old(run).dir as int, a).0,
        final(run).step == after_backup(old(run).dir as int, a).1,
        final(run).restored == old(run).restored,
        final(run).dir_count == old(run).dir_count,
{
    match a {
        Arch::X86 => {
            run.step = RemoveStep::CheckBackup(Arch::X64);
        },
        Arch::X64 => {
            run.dir = run.dir + 1;
            run.step = RemoveStep::CheckOrig(Arch::X86);
        },
    }
}

/// Advances a removal by the outcome of the last action and returns the
/// next action. In each directory, for each DLL (the 32-bit one first):
/// where its set-aside original is there, deletes the CreamAPI DLL and
/// renames the original back; then deletes `cream_api.ini` and the backups
/// where they are there. Succeeds where any original was put back.
pub fn remove(run: &mut RemoveRun, event: RemoveEvent) -> (action: RemoveAction)
    ensures
        final(run).dir_count == old(run).dir_count,
        final(run).dir == remove_next(*old(run), event).0,
        final(run).step == remove_next(*old(run), event).1,
        final(run).restored == remove_next(*old(run), event).2,
        action@ == remove_pending(*final(run)),
{
    if run.dir < run.dir_count {
        match run.step {
            RemoveStep::CheckOrig(a) => match &event {
                RemoveEvent::FileChecked(exists) => {
                    if *exists {
                        run.step = RemoveStep::RemoveApi(a);
                    } else {
                        run.step = after_restore_exec(a);
                    }
                },
                _ => {},
            },
            RemoveStep::RemoveApi(a) => match &event {
                RemoveEvent::Performed(_) => {
                    run.step = RemoveStep::RenameOrig(a);
                },
                _ => {},
            },
            RemoveStep::RenameOrig(a) => match &event {
                RemoveEvent::Performed(res) => {
                    run.restored = run.restored || res.is_ok();
                    run.step = after_restore_exec(a);
                },
                _ => {},
            },
            RemoveStep::CheckConfig => match &event {
                RemoveEvent::FileChecked(exists) => {
                    if *exists {
                        run.step = RemoveStep::RemoveConfig;
                    } else {
                        run.step = RemoveStep::CheckBackup(Arch::X86);
                    }
                },
                _ => {},
            },
            RemoveStep::RemoveConfig => match &event {
                RemoveEvent::Performed(_) => {
                    run.step = RemoveStep::CheckBackup(Arch::X86);
                },
                _ => {},
            },
            RemoveStep::CheckBackup(a) => match &event {
                RemoveEvent::FileChecked(exists) => {
                    if *exists {
                        run.step = RemoveStep::RemoveBackup(a);
                    } else {
                        next_after_backup(run, a);
                    }
                },
                _ => {},
            },
            RemoveStep::RemoveBackup(a) => match &event {
                RemoveEvent::Performed(_) => {
                    next_after_backup(run, a);
                },
                _ => {},
            },
        }
    }
    run.pending_action()
}

// ---------------------------------------------------------------------------
// Laws of the removal

/// A Steam API DLL is deleted only where the check just before found its
/// set-aside original in the same directory, so a game is never left
/// without its DLL for want of an original.
pub proof fn lemma_dll_deleted_only_with_original(run: RemoveRun, ev: RemoveEvent, a: Arch)
    requires
        run.step != RemoveStep::RemoveApi(a),
        remove_next(run, ev).1 == RemoveStep::RemoveApi(a),
    ensures
        run.step == RemoveStep::CheckOrig(a),
        ev matches RemoveEvent::FileChecked(true),
        remove_next(run, ev).0 == run.dir,
{
}

/// A removal counts as having restored something exactly from the first
/// original renamed back without error, and then stays so.
pub proof fn lemma_restored_by_rename(run: RemoveRun, ev: RemoveEvent)
    ensures
        run.restored ==> remove_next(run, ev).2,
        !run.restored && remove_next(run, ev).2 ==> (exists|a: Arch|
            run.step == RemoveStep::RenameOrig(a)) && ev matches RemoveEvent::Performed(Ok(())),
{
    if !run.restored && remove_next(run, ev).2 {
        match run.step {
            RemoveStep::RenameOrig(a) => {
                assert(run.step == RemoveStep::RenameOrig(a));
            },
            _ => {},
        }
    }
}

/// Every directory is handled in turn: the removal moves on to the next
/// directory only after the 64-bit backup of the current one was handled.
pub proof fn lemma_directories_in_turn(run: RemoveRun, ev: RemoveEvent)
    ensures
        remove_next(run, ev).0 == run.dir || (remove_next(run, ev).0 == run.dir + 1 && (
        run.step == RemoveStep::CheckBackup(Arch::X64) || run.step == RemoveStep::RemoveBackup(
            Arch::X64,
        )) && remove_next(run, ev).1 == RemoveStep::CheckOrig(Arch::X86)),
{
}

/// Reports whether the CreamAPI DLLs are present in the resource directory.
pub fn get_dll_status(dll_dir: String, has_x86: bool, has_x64: bool) -> (r: DllStatus)
    ensures
        r.dll_dir == dll_dir,
        r.has_x86 == has_x86,
        r.has_x64 == has_x64,
{
    DllStatus { dll_dir, has_x86, has_x64 }
}

} // verus!
