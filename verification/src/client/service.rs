//! Installing the daemon as a background service: one template per init system.
use vstd::prelude::*;

use crate::text;

verus! {

/// Name of the systemd unit.
pub const UNIT: &'static str = "etun.service";

/// Label of the launchd agent.
pub const LABEL: &'static str = "com.matpb.etun";

/// Name of the Windows service.
pub const SERVICE_NAME: &'static str = "EtherTunnel";

/// Where a system service gets its bearer token from; only root reads it.
pub const TOKEN_DIR: &'static str = "/etc/etun";

/// Where a system service keeps its configuration and state.
pub const STATE_DIR: &'static str = "/var/lib/etun";

/// The lines that lock a system service in: a transient user, a state directory
/// of its own, and the token handed in by systemd from outside.
pub open spec fn sandbox() -> Seq<char> {
    "DynamicUser=yes\nStateDirectory=etun\nEnvironment=ETUN_CONFIG_DIR=/var/lib/etun\nLoadCredential=token:/etc/etun/token\nEnvironment=ETUN_TOKEN_FILE=%d/token\n"@
}

/// The systemd unit: of the system, in a sandbox, or of one user.
pub open spec fn unit(exe: Seq<char>, system: bool) -> Seq<char> {
    "[Unit]\nDescription=EtherTunnel client daemon\nAfter=network-online.target\nWants=network-online.target\n\n[Service]\nType=simple\nExecStart="@
        + exe + " up --service-mode\nRestart=always\nRestartSec=5\n"@ + (if system {
        sandbox()
    } else {
        Seq::empty()
    }) + "NoNewPrivileges=true\n\n[Install]\nWantedBy="@ + (if system {
        "multi-user.target"@
    } else {
        "default.target"@
    }) + "\n"@
}

/// The systemd unit, of the system or of one user.
pub fn unit_text(exe: &str, system: bool) -> (r: String)
    ensures
        r@ == unit(exe@, system),
{
    let mut s = text::join3(
        "[Unit]\nDescription=EtherTunnel client daemon\nAfter=network-online.target\nWants=network-online.target\n\n[Service]\nType=simple\nExecStart=",
        exe,
        " up --service-mode\nRestart=always\nRestartSec=5\n",
    );
    let ghost head = s@;
    if system {
        s.append(
            "DynamicUser=yes\nStateDirectory=etun\nEnvironment=ETUN_CONFIG_DIR=/var/lib/etun\nLoadCredential=token:/etc/etun/token\nEnvironment=ETUN_TOKEN_FILE=%d/token\n",
        );
    }
    assert(!system ==> s@ =~= head + Seq::<char>::empty());
    s.append("NoNewPrivileges=true\n\n[Install]\nWantedBy=");
    s.append(
        if system {
            "multi-user.target"
        } else {
            "default.target"
        },
    );
    s.append("\n");
    s
}

/// What installing a systemd unit takes beyond writing it.
pub struct InstallPlan {
    /// Directories to create.
    pub dirs: Vec<&'static str>,
    /// Start the service too, not only enable it.
    pub start: bool,
    /// Let it run on after the user logs out.
    pub linger: bool,
}

/// A system service is enabled and not started: it has its token and its
/// configuration yet to get, and systemd starts it only with the token. A
/// user's service has what it needs and starts at once.
pub fn install_plan(system: bool) -> (r: InstallPlan)
    ensures
        r.dirs@ == (if system {
            seq![TOKEN_DIR, STATE_DIR]
        } else {
            seq![]
        }),
        r.start == !system,
        r.linger == !system,
{
    let mut dirs: Vec<&'static str> = Vec::new();
    if system {
        dirs.push(TOKEN_DIR);
        dirs.push(STATE_DIR);
    }
    InstallPlan { dirs, start: !system, linger: !system }
}

/// The launchd agent.
pub open spec fn plist(exe: Seq<char>, log: Seq<char>) -> Seq<char> {
    "<?xml version=\"1.0\" encoding=\"UTF-8\"?>\n<!DOCTYPE plist PUBLIC \"-//Apple//DTD PLIST 1.0//EN\" \"http://www.apple.com/DTDs/PropertyList-1.0.dtd\">\n<plist version=\"1.0\"><dict>\n<key>Label</key><string>com.matpb.etun</string>\n<key>ProgramArguments</key><array><string>"@
        + exe
        + "</string><string>up</string><string>--service-mode</string></array>\n<key>RunAtLoad</key><true/>\n<key>KeepAlive</key><true/>\n<key>StandardErrorPath</key><string>"@
        + log + "/launchd.err</string>\n<key>StandardOutPath</key><string>"@ + log
        + "/launchd.out</string>\n</dict></plist>\n"@
}

/// The launchd agent, which writes its output to the log directory.
pub fn plist_text(exe: &str, log: &str) -> (r: String)
    ensures
        r@ == plist(exe@, log@),
{
    let mut s = text::join3(
        "<?xml version=\"1.0\" encoding=\"UTF-8\"?>\n<!DOCTYPE plist PUBLIC \"-//Apple//DTD PLIST 1.0//EN\" \"http://www.apple.com/DTDs/PropertyList-1.0.dtd\">\n<plist version=\"1.0\"><dict>\n<key>Label</key><string>com.matpb.etun</string>\n<key>ProgramArguments</key><array><string>",
        exe,
        "</string><string>up</string><string>--service-mode</string></array>\n<key>RunAtLoad</key><true/>\n<key>KeepAlive</key><true/>\n<key>StandardErrorPath</key><string>",
    );
    s.append(log);
    s.append("/launchd.err</string>\n<key>StandardOutPath</key><string>");
    s.append(log);
    s.append("/launchd.out</string>\n</dict></plist>\n");
    s
}

/// The command line of the Windows service.
pub fn service_command(exe: &str) -> (r: String)
    ensures
        r@ == "\""@ + exe@ + "\" up --service-mode"@,
{
    text::join3("\"", exe, "\" up --service-mode")
}

/// A unit runs the program as a service and brings it back; only a system unit
/// is sandboxed and reads its token as a credential.
pub proof fn unit_runs_the_program(exe: Seq<char>, system: bool)
    ensures
        text::occurs(
            unit(exe, system),
            "ExecStart="@ + exe + " up --service-mode\nRestart=always\nRestartSec=5\n"@,
        ),
        system ==> text::occurs(unit(exe, system), sandbox()) && text::occurs(
            unit(exe, system),
            "WantedBy=multi-user.target\n"@,
        ),
        !system ==> text::occurs(unit(exe, system), "WantedBy=default.target\n"@) && text::occurs(
            unit(exe, system),
            exe
                + " up --service-mode\nRestart=always\nRestartSec=5\nNoNewPrivileges=true\n"@,
        ),
{
    let head = "[Unit]\nDescription=EtherTunnel client daemon\nAfter=network-online.target\nWants=network-online.target\n\n[Service]\nType=simple\nExecStart="@;
    let run = " up --service-mode\nRestart=always\nRestartSec=5\n"@;
    let tail = "NoNewPrivileges=true\n\n[Install]\nWantedBy="@;
    let early = "[Unit]\nDescription=EtherTunnel client daemon\nAfter=network-online.target\nWants=network-online.target\n\n[Service]\nType=simple\n"@;
    let late = "NoNewPrivileges=true\n\n[Install]\n"@;
    lemma_unit_literals();
    let box_text = if system {
        sandbox()
    } else {
        Seq::empty()
    };
    let target = if system {
        "multi-user.target"@
    } else {
        "default.target"@
    };
    let u = unit(exe, system);
    assert(u == head + exe + run + box_text + tail + target + "\n"@);
    let wanted = "WantedBy="@ + target + "\n"@;
    lemma_unit_parts(early, "ExecStart="@, exe, run, box_text, late, "WantedBy="@, target, "\n"@);
    if !system {
        let nn = "NoNewPrivileges=true\n"@;
        let rest = "\n[Install]\n"@ + wanted;
        assert(u =~= head + (exe + (run + nn)) + rest);
        text::occurrences_are_found(head, exe + (run + nn), rest);
        assert(exe + (run + nn) =~= exe
            + " up --service-mode\nRestart=always\nRestartSec=5\nNoNewPrivileges=true\n"@);
    }
}

proof fn lemma_unit_parts(
    early: Seq<char>,
    start: Seq<char>,
    exe: Seq<char>,
    run: Seq<char>,
    middle: Seq<char>,
    late: Seq<char>,
    by: Seq<char>,
    target: Seq<char>,
    end: Seq<char>,
)
    ensures
        ({
            let u = (early + start) + exe + run + middle + (late + by) + target + end;
            &&& text::occurs(u, start + exe + run)
            &&& text::occurs(u, middle)
            &&& text::occurs(u, by + target + end)
        }),
{
    let u = (early + start) + exe + run + middle + (late + by) + target + end;
    let last = by + target + end;
    let first = start + exe + run;
    assert(u =~= early + first + (middle + late + last));
    text::occurrences_are_found(early, first, middle + late + last);
    assert(u =~= (early + first) + middle + (late + last));
    text::occurrences_are_found(early + first, middle, late + last);
    assert(u =~= (early + first + middle + late) + last + Seq::<char>::empty());
    text::occurrences_are_found(early + first + middle + late, last, Seq::empty());
}

proof fn lemma_unit_literals()
    ensures
        "[Unit]\nDescription=EtherTunnel client daemon\nAfter=network-online.target\nWants=network-online.target\n\n[Service]\nType=simple\nExecStart="@
            == "[Unit]\nDescription=EtherTunnel client daemon\nAfter=network-online.target\nWants=network-online.target\n\n[Service]\nType=simple\n"@
            + "ExecStart="@,
        "NoNewPrivileges=true\n\n[Install]\nWantedBy="@ == "NoNewPrivileges=true\n\n[Install]\n"@
            + "WantedBy="@,
        "NoNewPrivileges=true\n\n[Install]\n"@ == "NoNewPrivileges=true\n"@ + "\n[Install]\n"@,
        " up --service-mode\nRestart=always\nRestartSec=5\nNoNewPrivileges=true\n"@
            == " up --service-mode\nRestart=always\nRestartSec=5\n"@ + "NoNewPrivileges=true\n"@,
        "WantedBy=multi-user.target\n"@ == "WantedBy="@ + "multi-user.target"@ + "\n"@,
        "WantedBy=default.target\n"@ == "WantedBy="@ + "default.target"@ + "\n"@,
{
    reveal_strlit(
        "[Unit]\nDescription=EtherTunnel client daemon\nAfter=network-online.target\nWants=network-online.target\n\n[Service]\nType=simple\nExecStart=",
    );
    reveal_strlit(
        "[Unit]\nDescription=EtherTunnel client daemon\nAfter=network-online.target\nWants=network-online.target\n\n[Service]\nType=simple\n",
    );
    reveal_strlit("ExecStart=");
    reveal_strlit("NoNewPrivileges=true\n\n[Install]\nWantedBy=");
    reveal_strlit("NoNewPrivileges=true\n\n[Install]\n");
    reveal_strlit("WantedBy=");
    reveal_strlit("NoNewPrivileges=true\n");
    reveal_strlit("\n[Install]\n");
    reveal_strlit(" up --service-mode\nRestart=always\nRestartSec=5\nNoNewPrivileges=true\n");
    reveal_strlit(" up --service-mode\nRestart=always\nRestartSec=5\n");
    reveal_strlit("WantedBy=multi-user.target\n");
    reveal_strlit("WantedBy=default.target\n");
    reveal_strlit("multi-user.target");
    reveal_strlit("default.target");
    reveal_strlit("\n");
}

/// A property list runs the program as a service and keeps it alive, with its
/// output in the log directory.
pub proof fn list_runs_the_program(exe: Seq<char>, log: Seq<char>)
    ensures
        text::occurs(
            plist(exe, log),
            exe
                + "</string><string>up</string><string>--service-mode</string></array>\n<key>RunAtLoad</key><true/>\n<key>KeepAlive</key><true/>\n<key>StandardErrorPath</key><string>"@
                + log + "/launchd.err</string>\n<key>StandardOutPath</key><string>"@ + log
                + "/launchd.out</string>\n</dict></plist>\n"@,
        ),
{
    let head = "<?xml version=\"1.0\" encoding=\"UTF-8\"?>\n<!DOCTYPE plist PUBLIC \"-//Apple//DTD PLIST 1.0//EN\" \"http://www.apple.com/DTDs/PropertyList-1.0.dtd\">\n<plist version=\"1.0\"><dict>\n<key>Label</key><string>com.matpb.etun</string>\n<key>ProgramArguments</key><array><string>"@;
    let p = exe
        + "</string><string>up</string><string>--service-mode</string></array>\n<key>RunAtLoad</key><true/>\n<key>KeepAlive</key><true/>\n<key>StandardErrorPath</key><string>"@
        + log + "/launchd.err</string>\n<key>StandardOutPath</key><string>"@ + log
        + "/launchd.out</string>\n</dict></plist>\n"@;
    assert(plist(exe, log) =~= head + p + Seq::<char>::empty());
    text::occurrences_are_found(head, p, Seq::empty());
}

} // verus!
