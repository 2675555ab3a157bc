//! How the proxy starts the game: the command line it runs, taken from the
//! user's start arguments or worked out from the Steam and Proton install, and
//! whether a start may go ahead.
use vstd::prelude::*;
use vstd::string::{StringExecFns, StringSliceAdditionalSpecFns};
use crate::basic_types::{parse_radix, parsed_radix};
use crate::text::{contains_bytes, occurs_in};



verus! {

/// The words that shlex makes of a command line, or none when the line is
/// erroneous (an unterminated quote, or a backslash at the end).
pub uninterp spec fn shlex_words(line: Seq<char>) -> Option<Seq<Seq<char>>>;

/// Calls `shlex::split`, which splits a command line into words the way a
/// POSIX shell does, and fails on erroneous input. The words are named by
/// `shlex_words`; nothing more of them is stated.
#[verifier::external_body]
fn split_command_line(line: &str) -> (r: Option<Vec<String>>)
    ensures
        match (r, shlex_words(line@)) {
            (Some(v), Some(w)) => v@.len() == w.len() && forall|i: int| 0 <= i < w.len() ==> #[trigger] v@[i]@ == w[i],
            (None, None) => true,
            _ => false,
        },
{
    shlex::split(line)
}

/// The command that starts the game: an executable, its arguments, and the
/// Steam and Proton locations it runs under, if any.
pub struct NoitaStartCmd {
    pub executable: String,
    pub args: Vec<String>,
    pub steam_install: Option<String>,
    pub noita_compat_data: Option<String>,
    pub noita_install: Option<String>,
}

/// The texts of a list of strings.
pub open spec fn texts(v: Seq<String>) -> Seq<Seq<char>> {
    Seq::new(v.len(), |i: int| v[i]@)
}

fn copy_strings(v: &[String], from: usize) -> (r: Vec<String>)
    requires
        from <= v@.len(),
    ensures
        texts(r@) == texts(v@).skip(from as int),
{
    let mut out: Vec<String> = Vec::new();
    let mut i: usize = from;
    while i < v.len()
        invariant
            from <= i <= v@.len(),
            texts(out@) == texts(v@).subrange(from as int, i as int),
        decreases v@.len() - i,
    {
        let s = v[i].clone();
        assert(s@ == v@[i as int]@);
        let ghost before = out@;
        out.push(s);
        assert(texts(out@) =~= texts(before).push(s@));
        i = i + 1;
        assert(texts(out@) =~= texts(v@).subrange(from as int, i as int));
    }
    assert(texts(v@).subrange(from as int, i as int) =~= texts(v@).skip(from as int));
    out
}

impl NoitaStartCmd {
    /// The command whose first word is the executable and whose other words
    /// are the arguments; none for no words.
    pub fn from_full_args(args: &[String]) -> (r: Option<Self>)
        ensures
            args@.len() == 0 ==> r is None,
            args@.len() > 0 ==> (r matches Some(c) && c.executable@ == args@[0]@ && texts(c.args@)
                == texts(args@).skip(1) && c.steam_install is None && c.noita_compat_data is None
                && c.noita_install is None),
    {
        if args.len() == 0 {
            return None;
        }
        Some(NoitaStartCmd {
            executable: args[0].clone(),
            args: copy_strings(args, 1),
            steam_install: None,
            noita_compat_data: None,
            noita_install: None,
        })
    }

    /// The same command, run under a gdb server listening on port 4123.
    pub fn under_gdb(self) -> (r: Self)
        ensures
            r.executable@ == "gdbserver"@,
            texts(r.args@) == seq!["localhost:4123"@, "--"@, self.executable@] + texts(self.args@),
            r.steam_install == self.steam_install,
            r.noita_compat_data == self.noita_compat_data,
            r.noita_install == self.noita_install,
    {
        let NoitaStartCmd { executable, args, steam_install, noita_compat_data, noita_install } = self;
        let mut new_args: Vec<String> = Vec::new();
        new_args.push(String::from_str("localhost:4123"));
        new_args.push(String::from_str("--"));
        new_args.push(executable);
        let mut i: usize = 0;
        while i < args.len()
            invariant
                i <= args@.len(),
                texts(new_args@) == seq!["localhost:4123"@, "--"@, self.executable@] + texts(args@).take(i as int),
            decreases args@.len() - i,
        {
            let s = args[i].clone();
            assert(s@ == args@[i as int]@);
            let ghost before = new_args@;
            new_args.push(s);
            assert(texts(new_args@) =~= texts(before).push(s@));
            i = i + 1;
            assert(texts(new_args@) =~= seq!["localhost:4123"@, "--"@, self.executable@] + texts(args@).take(i as int));
        }
        assert(texts(args@).take(i as int) =~= texts(args@));
        NoitaStartCmd {
            executable: String::from_str("gdbserver"),
            args: new_args,
            steam_install,
            noita_compat_data,
            noita_install,
        }
    }
}

/// The command the user's start arguments stand for: their shlex words, the
/// first being the executable; none when there are no arguments, they do not
/// split, or they have no word.
pub fn start_cmd_from_args(start_args: Option<&str>) -> (r: Option<NoitaStartCmd>)
    ensures
        match start_args {
            None => r is None,
            Some(line) => match shlex_words(line@) {
                None => r is None,
                Some(w) => if w.len() == 0 {
                    r is None
                } else {
                    r matches Some(c) && c.executable@ == w[0] && texts(c.args@) == w.skip(1)
                        && c.steam_install is None && c.noita_compat_data is None && c.noita_install is None
                },
            },
        },
{
    match start_args {
        None => None,
        Some(line) => match split_command_line(line) {
            None => None,
            Some(words) => {
                let r = NoitaStartCmd::from_full_args(words.as_slice());
                proof {
                    let w = shlex_words(line@).unwrap();
                    assert(texts(words@) =~= w);
                }
                r
            },
        },
    }
}

/// The executable and the arguments of a command, as texts.
pub open spec fn cmd_text(c: Option<NoitaStartCmd>) -> Option<(Seq<char>, Seq<Seq<char>>)> {
    match c {
        Some(c) => Some((c.executable@, texts(c.args@))),
        None => None,
    }
}

/// The command the user's start arguments give, as texts.
pub open spec fn user_cmd(start_args: Option<&str>) -> Option<(Seq<char>, Seq<Seq<char>>)> {
    match start_args {
        Some(line) => match shlex_words(line@) {
            Some(w) => if w.len() > 0 {
                Some((w[0], w.skip(1)))
            } else {
                None
            },
            None => None,
        },
        None => None,
    }
}

/// The command that is run: the user's when there is one, else the default,
/// under gdb when asked.
pub open spec fn launch_cmd(
    user: Option<(Seq<char>, Seq<Seq<char>>)>,
    default: Option<(Seq<char>, Seq<Seq<char>>)>,
    gdb: bool,
) -> Option<(Seq<char>, Seq<Seq<char>>)> {
    let chosen = match user {
        Some(u) => Some(u),
        None => default,
    };
    match chosen {
        Some((exe, args)) => if gdb {
            Some(("gdbserver"@, seq!["localhost:4123"@, "--"@, exe] + args))
        } else {
            Some((exe, args))
        },
        None => None,
    }
}

/// Starts and tracks the game.
pub struct NoitaLauncher {
    pub noita_install: String,
    pub start_args: Option<NoitaStartCmd>,
}

impl NoitaLauncher {
    /// The launcher for the game installed at `noita_install`: the command is
    /// the user's start arguments when they give one, else `default_cmd`, and it
    /// runs under gdb when asked.
    pub fn new(
        noita_install: String,
        start_args: Option<&str>,
        run_with_gdb: bool,
        default_cmd: Option<NoitaStartCmd>,
    ) -> (r: Self)
        ensures
            r.noita_install@ == noita_install@,
            cmd_text(r.start_args) == launch_cmd(user_cmd(start_args), cmd_text(default_cmd), run_with_gdb),
    {
        let chosen = match start_cmd_from_args(start_args) {
            Some(c) => Some(c),
            None => default_cmd,
        };
        let start_args = match chosen {
            Some(c) => if run_with_gdb {
                Some(c.under_gdb())
            } else {
                Some(c)
            },
            None => None,
        };
        NoitaLauncher { noita_install, start_args }
    }

    /// Whether a start may go ahead, given whether the game is running now.
    pub fn launch_token(&self, running: bool) -> (r: LaunchTokenResult)
        ensures
            running ==> r == LaunchTokenResult::AlreadyStarted,
            !running && self.start_args is Some ==> r == LaunchTokenResult::Granted,
            !running && self.start_args is None ==> r == LaunchTokenResult::CantStart,
    {
        if running {
            return LaunchTokenResult::AlreadyStarted;
        }
        match self.start_args {
            Some(_) => LaunchTokenResult::Granted,
            None => LaunchTokenResult::CantStart,
        }
    }
}

/// Whether a start may go ahead.
#[derive(Debug, Clone, Copy, PartialEq, Eq, Structural)]
pub enum LaunchTokenResult {
    Granted,
    AlreadyStarted,
    CantStart,
}

/// What waiting on the game's process found.
#[derive(Debug, Clone, Copy, PartialEq, Eq, Structural)]
pub enum ProcessWait {
    /// The process has exited.
    Exited,
    /// The process has not exited yet.
    Running,
    /// The process could not be waited on.
    WaitFailed,
    /// No process was started.
    NoProcess,
}

/// Whether the game is running, from what waiting on its process found.
pub fn check_if_noita_running(wait: ProcessWait) -> (r: bool)
    ensures
        r == (wait == ProcessWait::Running),
{
    match wait {
        ProcessWait::Running => true,
        _ => false,
    }
}

/// The first of `lines` whose bytes contain `needle`.
pub open spec fn first_line_with(lines: Seq<Seq<u8>>, needle: Seq<u8>) -> Option<Seq<u8>>
    decreases lines.len(),
{
    if lines.len() == 0 {
        None
    } else if occurs_in(lines[0], needle) {
        Some(lines[0])
    } else {
        first_line_with(lines.drop_first(), needle)
    }
}

/// The `n`-th piece of `s` split at every `sep`, if there are that many.
pub open spec fn nth_field(s: Seq<u8>, sep: u8, n: nat) -> Option<Seq<u8>>
    decreases s.len(),
{
    if s.len() == 0 {
        if n == 0 { Some(s) } else { None }
    } else if s[0] == sep {
        if n == 0 { Some(Seq::empty()) } else { nth_field(s.drop_first(), sep, (n - 1) as nat) }
    } else {
        match nth_field(s.drop_first(), sep, n) {
            Some(f) => if n == 0 { Some(seq![s[0]] + f) } else { Some(f) },
            None => None,
        }
    }
}

/// A decimal `u32`, with an optional leading `+`.
pub open spec fn parsed_u32(b: Seq<u8>) -> Option<u32> {
    let d = if b.len() > 0 && b[0] == 43 { b.drop_first() } else { b };
    if d.len() == 0 {
        None
    } else {
        match parsed_radix(d, 10) {
            Some(v) => if v <= u32::MAX { Some(v as u32) } else { None },
            None => None,
        }
    }
}

/// The runtime that Proton's tool manifest asks for: the fourth `"`-separated
/// piece of the first line naming `require_tool_appid`, parsed as a number
/// (`None` inside when it does not parse).
pub open spec fn manifest_appid(lines: Seq<Seq<u8>>) -> Option<Option<Option<u32>>> {
    match first_line_with(lines, "require_tool_appid"@.map_values(|c: char| c as u8)) {
        None => None,
        Some(l) => match nth_field(l, 34, 3) {
            None => Some(None),
            Some(f) => Some(Some(parsed_u32(f))),
        },
    }
}

fn nth_field_exec(s: &[u8], sep: u8, n: usize) -> (r: Option<(usize, usize)>)
    ensures
        match (r, nth_field(s@, sep, n as nat)) {
            (Some((a, b)), Some(f)) => a <= b <= s@.len() && s@.subrange(a as int, b as int) == f,
            (None, None) => true,
            _ => false,
        },
{
    let mut start: usize = 0;
    let mut k: usize = 0;
    let mut i: usize = 0;
    assert(s@.skip(0) =~= s@);
    while i < s.len()
        invariant
            start <= i <= s@.len(),
            k <= n,
            forall|j: int| start <= j < i ==> #[trigger] s@[j] != sep,
            nth_field(s@, sep, n as nat) == nth_from(s@, sep, start as int, (n - k) as nat),
        decreases s@.len() - i,
    {
        if s[i] == sep {
            if k == n {
                proof {
                    lemma_nth_from_field(s@, sep, start as int, i as int);
                }
                return Some((start, i));
            }
            proof {
                lemma_nth_from_skip(s@, sep, start as int, i as int, (n - k) as nat);
            }
            k = k + 1;
            start = i + 1;
        }
        i = i + 1;
    }
    proof {
        lemma_nth_from_end(s@, sep, start as int, (n - k) as nat);
    }
    if k == n {
        Some((start, s.len()))
    } else {
        None
    }
}

/// The `n`-th piece of `s` from position `start` on.
pub open spec fn nth_from(s: Seq<u8>, sep: u8, start: int, n: nat) -> Option<Seq<u8>> {
    nth_field(s.skip(start), sep, n)
}

proof fn lemma_nth_from_field(s: Seq<u8>, sep: u8, start: int, i: int)
    requires
        0 <= start <= i < s.len(),
        s[i] == sep,
        forall|j: int| start <= j < i ==> #[trigger] s[j] != sep,
    ensures
        nth_from(s, sep, start, 0) == Some(s.subrange(start, i)),
    decreases i - start,
{
    let t = s.skip(start);
    if start == i {
        assert(t[0] == sep);
        assert(s.subrange(start, i) =~= Seq::<u8>::empty());
    } else {
        assert(t[0] == s[start]);
        assert(t.drop_first() =~= s.skip(start + 1));
        lemma_nth_from_field(s, sep, start + 1, i);
        assert(s.subrange(start, i) =~= seq![s[start]] + s.subrange(start + 1, i));
    }
}

proof fn lemma_nth_from_skip(s: Seq<u8>, sep: u8, start: int, i: int, n: nat)
    requires
        0 <= start <= i < s.len(),
        s[i] == sep,
        n > 0,
        forall|j: int| start <= j < i ==> #[trigger] s[j] != sep,
    ensures
        nth_from(s, sep, start, n) == nth_from(s, sep, i + 1, (n - 1) as nat),
    decreases i - start,
{
    let t = s.skip(start);
    if start == i {
        assert(t[0] == sep);
        assert(t.drop_first() =~= s.skip(i + 1));
    } else {
        assert(t[0] == s[start]);
        assert(t.drop_first() =~= s.skip(start + 1));
        lemma_nth_from_skip(s, sep, start + 1, i, n);
    }
}

proof fn lemma_nth_from_end(s: Seq<u8>, sep: u8, start: int, n: nat)
    requires
        0 <= start <= s.len(),
        forall|j: int| start <= j < s.len() ==> #[trigger] s[j] != sep,
    ensures
        nth_from(s, sep, start, n) == if n == 0 { Some(s.skip(start)) } else { None },
    decreases s.len() - start,
{
    let t = s.skip(start);
    if start == s.len() {
        assert(t =~= Seq::<u8>::empty());
    } else {
        assert(t[0] == s[start]);
        assert(t.drop_first() =~= s.skip(start + 1));
        lemma_nth_from_end(s, sep, start + 1, n);
        if n == 0 {
            assert(s.skip(start) =~= seq![s[start]] + s.skip(start + 1));
        }
    }
}

/// The bytes of each line.
pub open spec fn line_bytes(lines: Seq<String>) -> Seq<Seq<u8>> {
    Seq::new(lines.len(), |i: int| vstd::utf8::encode_utf8(lines[i]@))
}

fn parse_u32_field(b: &[u8], from: usize, to: usize) -> (r: Option<u32>)
    requires
        from <= to <= b@.len(),
    ensures
        r == parsed_u32(b@.subrange(from as int, to as int)),
{
    let ghost f = b@.subrange(from as int, to as int);
    let start = if from < to && b[from] == 43 {
        from + 1
    } else {
        from
    };
    proof {
        if start == from + 1 {
            assert(f.drop_first() =~= b@.subrange(start as int, to as int));
        } else {
            assert(f =~= b@.subrange(start as int, to as int));
        }
    }
    if start == to {
        return None;
    }
    match parse_radix(b, start, to, 10) {
        Some(v) => if v <= 0xFFFF_FFFF {
            Some(v as u32)
        } else {
            None
        },
        None => None,
    }
}

/// Reads the runtime that Proton's tool manifest asks for.
pub fn runtime_appid(lines: &[String]) -> (r: Option<Option<Option<u32>>>)
    ensures
        r == manifest_appid(line_bytes(lines@)),
{
    let needle = "require_tool_appid";
    proof {
        reveal_strlit("require_tool_appid");
    }
    let nb = needle.as_bytes();
    proof {
        vstd::string::is_ascii_spec_bytes(needle);
        assert(nb@ =~= "require_tool_appid"@.map_values(|c: char| c as u8));
    }
    let mut i: usize = 0;
    assert(line_bytes(lines@).skip(0) =~= line_bytes(lines@));
    while i < lines.len()
        invariant
            i <= lines@.len(),
            nb@ == "require_tool_appid"@.map_values(|c: char| c as u8),
            first_line_with(line_bytes(lines@), nb@) == first_line_with(line_bytes(lines@).skip(i as int), nb@),
        decreases lines@.len() - i,
    {
        let lb = lines[i].as_str().as_bytes();
        proof {
            assert(line_bytes(lines@).skip(i as int)[0] == lb@);
            assert(line_bytes(lines@).skip(i as int).drop_first() =~= line_bytes(lines@).skip(i + 1));
        }
        if contains_bytes(lb, nb) {
            return match nth_field_exec(lb, 34, 3) {
                None => Some(None),
                Some((a, b)) => Some(Some(parse_u32_field(lb, a, b))),
            };
        }
        i = i + 1;
    }
    proof {
        assert(line_bytes(lines@).skip(i as int) =~= Seq::<Seq<u8>>::empty());
    }
    None
}

/// What is known of the Steam Linux runtime next to the Proton install.
pub enum SniperRuntime {
    /// The Proton install has no parent directory.
    NoParent,
    /// The runtime directory does not exist.
    Missing,
    /// The runtime exists; its entry point.
    EntryPoint(String),
}

/// The Steam app id of the Steam Linux runtime that Proton runs under.
pub const SNIPER_APP_ID: u32 = 1628350;

/// The arguments that run the game through a runtime's entry point.
pub open spec fn entry_point_args(proton_binary: Seq<char>, noita_exe: Seq<char>) -> Seq<Seq<char>> {
    seq!["--verb=run"@, proton_binary, "run"@, noita_exe]
}

/// The executable and arguments that start the game on Linux, or none when the
/// runtime is asked for but the Proton install has no parent.
pub open spec fn linux_launch(
    appid: Option<Option<Option<u32>>>,
    steam_entry: Option<Seq<char>>,
    sniper: Option<Option<Seq<char>>>,
    proton_binary: Seq<char>,
    noita_exe: Seq<char>,
) -> Option<(Seq<char>, Seq<Seq<char>>)> {
    let direct = Some((proton_binary, seq!["run"@, noita_exe]));
    match appid {
        Some(Some(Some(id))) => if id == SNIPER_APP_ID && steam_entry is Some {
            Some((steam_entry->0, entry_point_args(proton_binary, noita_exe)))
        } else {
            match sniper {
                None => None,
                Some(None) => direct,
                Some(Some(e)) => Some((e, entry_point_args(proton_binary, noita_exe))),
            }
        },
        _ => direct,
    }
}

/// Which command starts the game on Linux. When the tool manifest names a
/// runtime and Steam's own entry point is not the one used (Steam is not
/// running, or another runtime is named), the runtime installed next to
/// Proton runs the game: its entry point is the executable, given
/// `--verb=run`, the Proton binary, `run` and the game; without that runtime
/// Proton runs the game directly, and without a parent directory there is no
/// command. With Steam running and the sniper runtime named, Steam's entry
/// point runs it the same way; with no runtime named, Proton runs it directly.
pub proof fn lemma_linux_launch_choices(
    id: u32,
    steam_entry: Option<Seq<char>>,
    e: Seq<char>,
    pb: Seq<char>,
    ne: Seq<char>,
)
    ensures
        !(id == 1628350 && steam_entry is Some) ==> {
            &&& linux_launch(Some(Some(Some(id))), steam_entry, Some(Some(e)), pb, ne)
                == Some((e, seq!["--verb=run"@, pb, "run"@, ne]))
            &&& linux_launch(Some(Some(Some(id))), steam_entry, Some(None), pb, ne)
                == Some((pb, seq!["run"@, ne]))
            &&& linux_launch(Some(Some(Some(id))), steam_entry, None, pb, ne) is None
        },
        steam_entry matches Some(s) ==> linux_launch(Some(Some(Some(1628350))), steam_entry, Some(Some(e)), pb, ne)
            == Some((s, seq!["--verb=run"@, pb, "run"@, ne])),
        linux_launch(None, steam_entry, Some(Some(e)), pb, ne) == Some((pb, seq!["run"@, ne])),
        linux_launch(Some(None), steam_entry, Some(Some(e)), pb, ne) == Some((pb, seq!["run"@, ne])),
        linux_launch(Some(Some(None)), steam_entry, Some(Some(e)), pb, ne) == Some((pb, seq!["run"@, ne])),
{
}

/// The sniper runtime as texts: none without a parent, then whether it exists.
pub open spec fn sniper_text(s: SniperRuntime) -> Option<Option<Seq<char>>> {
    match s {
        SniperRuntime::NoParent => None,
        SniperRuntime::Missing => Some(None),
        SniperRuntime::EntryPoint(e) => Some(Some(e@)),
    }
}

fn strings2(a: String, b: String) -> (r: Vec<String>)
    ensures
        texts(r@) == seq![a@, b@],
{
    let mut v: Vec<String> = Vec::new();
    v.push(a);
    v.push(b);
    assert(texts(v@) =~= seq![a@, b@]);
    v
}

fn entry_args(proton_binary: String, noita_exe: String) -> (r: Vec<String>)
    ensures
        texts(r@) == entry_point_args(proton_binary@, noita_exe@),
{
    let mut v: Vec<String> = Vec::new();
    v.push(String::from_str("--verb=run"));
    v.push(proton_binary);
    v.push(String::from_str("run"));
    v.push(noita_exe);
    assert(texts(v@) =~= entry_point_args(proton_binary@, noita_exe@));
    v
}

/// The command that starts the game on Linux through Proton: `steam_entry` is
/// the entry point of the runtime Steam has installed, when Steam is running,
/// and `tool_manifest` the lines of Proton's tool manifest.
pub fn linux_start_cmd(
    steam_install: String,
    compat_data: String,
    noita_install: String,
    noita_exe: String,
    proton_binary: String,
    tool_manifest: &[String],
    steam_entry: Option<String>,
    sniper: SniperRuntime,
) -> (r: Option<NoitaStartCmd>)
    ensures
        cmd_text(r) == linux_launch(
            manifest_appid(line_bytes(tool_manifest@)),
            match steam_entry { Some(e) => Some(e@), None => None },
            sniper_text(sniper),
            proton_binary@,
            noita_exe@,
        ),
        r matches Some(c) ==> c.steam_install == Some(steam_install) && c.noita_compat_data == Some(compat_data)
            && c.noita_install == Some(noita_install),
{
    let appid = runtime_appid(tool_manifest);
    let ghost pb = proton_binary@;
    let ghost ne = noita_exe@;
    let is_id = match appid {
        Some(Some(Some(_))) => true,
        _ => false,
    };
    let (executable, args) = if is_id {
        let id = match appid {
            Some(Some(Some(id))) => id,
            _ => 0,
        };
        if id == SNIPER_APP_ID && steam_entry.is_some() {
            let e = match steam_entry {
                Some(e) => e,
                None => String::new(),
            };
            (e, entry_args(proton_binary, noita_exe))
        } else {
            match sniper {
                SniperRuntime::NoParent => {
                    return None;
                },
                SniperRuntime::Missing => (proton_binary, strings2(String::from_str("run"), noita_exe)),
                SniperRuntime::EntryPoint(e) => (e, entry_args(proton_binary, noita_exe)),
            }
        }
    } else {
        (proton_binary, strings2(String::from_str("run"), noita_exe))
    };
    Some(NoitaStartCmd {
        executable,
        args,
        steam_install: Some(steam_install),
        noita_compat_data: Some(compat_data),
        noita_install: Some(noita_install),
    })
}

} // verus!
