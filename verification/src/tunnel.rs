//! The virtual adapter: what may be written to it, and the commands that set it up.

use crate::addr::Ipv4Addr;
use crate::text::{
    ascii_alphanumeric, chars_of, decimal, decimal_text, is_alphanumeric, same_text,
    signed_decimal, signed_text, trim, trimmed,
};
use vstd::prelude::*;

verus! {

/// A character that an adapter name may hold: an ASCII letter or digit, a hyphen or an
/// underscore.
pub open spec fn safe_char(c: char) -> bool {
    is_alphanumeric(c) || c == '-' || c == '_'
}

/// The name holds nothing but safe characters.
pub open spec fn safe_name(name: Seq<char>) -> bool {
    forall|i: int| 0 <= i < name.len() ==> safe_char(#[trigger] name[i])
}

/// Why something cannot be done with the virtual adapter.
#[derive(Debug)]
pub enum TunnelError {
    /// The adapter name, this one, holds an unsafe character.
    InvalidName(String),
    /// The signature of the driver has this status.
    Untrusted(String),
    /// A packet of this size cannot be written.
    PacketSize(usize),
    /// There is no session to write to.
    NotStarted,
    /// The driver is nowhere.
    DriverNotFound,
    /// The command that sets the address could not be run.
    SetIpNotRun,
    /// The command that sets the address ended with this code, if it had one.
    SetIpFailed(Option<i32>),
}

/// The exit code of a command, as it is shown.
pub open spec fn exit_code(code: Option<i32>) -> Seq<char> {
    match code {
        Some(n) => "Some("@ + signed_decimal(n as int) + ")"@,
        None => "None"@,
    }
}

/// Shows the exit code of a command.
fn exit_code_text(code: Option<i32>) -> (r: String)
    ensures
        r@ == exit_code(code),
{
    match code {
        Some(n) => joined("Some(", signed_text(n).as_str(), ")"),
        None => "None".to_owned(),
    }
}

impl TunnelError {
    /// What the error says.
    pub open spec fn text(self) -> Seq<char> {
        match self {
            TunnelError::InvalidName(name) => "Invalid adapter name: '"@ + name@ + "'"@,
            TunnelError::Untrusted(status) => {
                "wintun.dll failed Authenticode verification: status is '"@ + status@
                    + "'. Rejecting untrusted driver binary."@
            },
            TunnelError::PacketSize(size) => "Packet size "@ + decimal(size as nat)
                + " is invalid for WinTUN"@,
            TunnelError::NotStarted => "Session not started"@,
            TunnelError::DriverNotFound => {
                "wintun.dll not found in executable directory or System32"@
            },
            TunnelError::SetIpNotRun => "Failed to execute netsh command"@,
            TunnelError::SetIpFailed(code) => "Failed to set IP via netsh (exit code: "@
                + exit_code(code) + ")"@,
        }
    }

    /// The error as a message.
    pub fn message(&self) -> (r: String)
        ensures
            r@ == self.text(),
    {
        match self {
            TunnelError::InvalidName(name) => joined("Invalid adapter name: '", name.as_str(), "'"),
            TunnelError::Untrusted(status) => joined(
                "wintun.dll failed Authenticode verification: status is '",
                status.as_str(),
                "'. Rejecting untrusted driver binary.",
            ),
            TunnelError::PacketSize(size) => joined(
                "Packet size ",
                decimal_text(*size as u64).as_str(),
                " is invalid for WinTUN",
            ),
            TunnelError::NotStarted => "Session not started".to_owned(),
            TunnelError::DriverNotFound => {
                "wintun.dll not found in executable directory or System32".to_owned()
            },
            TunnelError::SetIpNotRun => "Failed to execute netsh command".to_owned(),
            TunnelError::SetIpFailed(code) => joined(
                "Failed to set IP via netsh (exit code: ",
                exit_code_text(*code).as_str(),
                ")",
            ),
        }
    }
}

/// Three texts in a row.
pub fn joined(a: &str, b: &str, c: &str) -> (r: String)
    ensures
        r@ == a@ + b@ + c@,
{
    let mut r: String = a.to_owned();
    r.append(b);
    r.append(c);
    r
}

/// Two texts in a row.
fn prefixed(a: &str, b: &str) -> (r: String)
    ensures
        r@ == a@ + b@,
{
    let mut r: String = a.to_owned();
    r.append(b);
    r
}

/// Refuses an adapter name that holds an unsafe character.
pub fn check_adapter_name(name: &str) -> (r: Result<(), TunnelError>)
    ensures
        match r {
            Ok(_) => safe_name(name@),
            Err(e) => !safe_name(name@) && (e matches TunnelError::InvalidName(n) && n@ == name@),
        },
{
    let chars: Vec<char> = chars_of(name);
    let mut i: usize = 0;
    while i < chars.len()
        invariant
            i <= chars@.len(),
            chars@ == name@,
            forall|j: int| 0 <= j < i ==> safe_char(#[trigger] name@[j]),
        decreases chars@.len() - i,
    {
        let c: char = chars[i];
        if !ascii_alphanumeric(c) && c != '-' && c != '_' {
            assert(!safe_char(name@[i as int]));
            return Err(TunnelError::InvalidName(name.to_owned()));
        }
        i += 1;
    }
    Ok(())
}

/// Decides what comes of a command of [`TunnelManager::set_ip`], by its place among them, by
/// whether it could be run, and by its exit code. Without its address the adapter is of no use,
/// so the first command has to succeed. The others may fail.
pub fn after_command(i: usize, ran: bool, code: Option<i32>) -> (r: Result<(), TunnelError>)
    ensures
        r is Err <==> i == 0 && !(ran && code == Some(0i32)),
        r matches Err(e) ==> e == if ran {
            TunnelError::SetIpFailed(code)
        } else {
            TunnelError::SetIpNotRun
        },
{
    if i != 0 {
        return Ok(());
    }
    if !ran {
        return Err(TunnelError::SetIpNotRun);
    }
    match code {
        Some(0) => Ok(()),
        _ => Err(TunnelError::SetIpFailed(code)),
    }
}

/// A safe name stays within the quotes that a script puts around it: it holds no quote, and
/// nothing that a shell reads as more than text.
pub proof fn law_safe_name_stays_quoted(name: Seq<char>, c: char)
    requires
        safe_name(name),
        name.contains(c),
    ensures
        c != '\'' && c != '"' && c != '`' && c != '$' && c != ';' && c != '&' && c != '|' && c
            != '(' && c != ')' && c != ' ' && c != '\n' && c != '\r',
{
    let i = choose|i: int| 0 <= i < name.len() && name[i] == c;
    assert(safe_char(name[i]));
}

/// What the words of a command are.
pub open spec fn word_texts(words: Seq<String>) -> Seq<Seq<char>> {
    words.map_values(|w: String| w@)
}

/// What the words of some commands are.
pub open spec fn command_texts(commands: Seq<Vec<String>>) -> Seq<Seq<Seq<char>>> {
    commands.map_values(|c: Vec<String>| word_texts(c@))
}

/// The words of a command, with one more behind them.
fn with_word(words: Vec<String>, word: &str) -> (r: Vec<String>)
    ensures
        word_texts(r@) == word_texts(words@).push(word@),
{
    let mut r: Vec<String> = words;
    let ghost before = r@;
    r.push(word.to_owned());
    assert(word_texts(r@) =~= word_texts(before).push(word@));
    r
}

/// No words.
fn no_words() -> (r: Vec<String>)
    ensures
        word_texts(r@) == Seq::<Seq<char>>::empty(),
{
    let r: Vec<String> = Vec::new();
    assert(word_texts(r@) =~= Seq::<Seq<char>>::empty());
    r
}

/// Where the driver is taken from.
#[derive(Debug, Clone, Copy, PartialEq, Eq, Structural)]
pub enum DllPlace {
    /// From the directory of the program.
    BesideProgram,
    /// From the directory of the system.
    System32,
}

/// Decides where wintun.dll is loaded from, by where it is: the directory of the program comes
/// first, then System32, and no other place is searched.
pub fn wintun_place(beside_program: bool, in_system32: bool) -> (r: Result<DllPlace, TunnelError>)
    ensures
        r == if beside_program {
            Ok::<DllPlace, TunnelError>(DllPlace::BesideProgram)
        } else if in_system32 {
            Ok(DllPlace::System32)
        } else {
            Err(TunnelError::DriverNotFound)
        },
{
    if beside_program {
        Ok(DllPlace::BesideProgram)
    } else if in_system32 {
        Ok(DllPlace::System32)
    } else {
        Err(TunnelError::DriverNotFound)
    }
}

/// Where netsh.exe lies below the root of the system, part by part.
pub open spec fn netsh_parts(root: Seq<char>) -> Seq<Seq<char>> {
    seq![root, "System32"@, "netsh.exe"@]
}

/// Where powershell.exe lies below the root of the system, part by part.
pub open spec fn powershell_parts(root: Seq<char>) -> Seq<Seq<char>> {
    seq![root, "System32"@, "WindowsPowerShell"@, "v1.0"@, "powershell.exe"@]
}

/// Resolve the absolute path to netsh.exe to prevent PATH environment variable hijacking, given
/// the root of the system and whether the program is there. Returns the parts of the path. Only
/// where it is not there is the program left to be searched for.
pub fn resolve_netsh_path(system_root: Option<&str>, is_there: bool) -> (r: Vec<String>)
    ensures
        word_texts(r@) == match system_root {
            Some(root) if is_there => netsh_parts(root@),
            _ => seq!["netsh"@],
        },
{
    match system_root {
        Some(root) if is_there => {
            let r: Vec<String> = with_word(no_words(), root);
            let r: Vec<String> = with_word(with_word(r, "System32"), "netsh.exe");
            assert(word_texts(r@) =~= netsh_parts(root@));
            r
        },
        _ => {
            let r: Vec<String> = with_word(no_words(), "netsh");
            assert(word_texts(r@) =~= seq!["netsh"@]);
            r
        },
    }
}

/// Resolve the absolute path to powershell.exe to prevent PATH environment variable hijacking,
/// given the root of the system and whether the program is there. Returns the parts of the path.
/// Only where it is not there is the program left to be searched for.
pub fn resolve_powershell_path(system_root: Option<&str>, is_there: bool) -> (r: Vec<String>)
    ensures
        word_texts(r@) == match system_root {
            Some(root) if is_there => powershell_parts(root@),
            _ => seq!["powershell"@],
        },
{
    match system_root {
        Some(root) if is_there => {
            let r: Vec<String> = with_word(no_words(), root);
            let r: Vec<String> = with_word(with_word(r, "System32"), "WindowsPowerShell");
            let r: Vec<String> = with_word(with_word(r, "v1.0"), "powershell.exe");
            assert(word_texts(r@) =~= powershell_parts(root@));
            r
        },
        _ => {
            let r: Vec<String> = with_word(no_words(), "powershell");
            assert(word_texts(r@) =~= seq!["powershell"@]);
            r
        },
    }
}

/// The words with which PowerShell runs a script.
pub open spec fn powershell_words(script: Seq<char>) -> Seq<Seq<char>> {
    seq![
        "-NoProfile"@,
        "-NonInteractive"@,
        "-ExecutionPolicy"@,
        "Bypass"@,
        "-Command"@,
        script,
    ]
}

/// The words with which PowerShell runs a script.
pub fn powershell_args(script: &str) -> (r: Vec<String>)
    ensures
        word_texts(r@) == powershell_words(script@),
{
    let r: Vec<String> = with_word(no_words(), "-NoProfile");
    let r: Vec<String> = with_word(r, "-NonInteractive");
    let r: Vec<String> = with_word(r, "-ExecutionPolicy");
    let r: Vec<String> = with_word(r, "Bypass");
    let r: Vec<String> = with_word(r, "-Command");
    let r: Vec<String> = with_word(r, script);
    assert(word_texts(r@) =~= powershell_words(script@));
    r
}

/// The script that makes the network of an adapter a private one.
pub open spec fn category_script(name: Seq<char>) -> Seq<char> {
    "Set-NetConnectionProfile -InterfaceAlias '"@ + name
        + "' -NetworkCategory Private -ErrorAction Stop"@
}

/// Sets the Windows network category of the adapter to Private so Windows Firewall
/// does not drop unsolicited game connections and ICMP pings: what PowerShell is to run.
pub fn set_network_category_private(name: &str) -> (r: Result<Vec<String>, TunnelError>)
    ensures
        match r {
            Ok(args) => safe_name(name@) && word_texts(args@) == powershell_words(
                category_script(name@),
            ),
            Err(e) => !safe_name(name@) && (e matches TunnelError::InvalidName(n) && n@ == name@),
        },
{
    match check_adapter_name(name) {
        Ok(_) => {
            let script: String = joined(
                "Set-NetConnectionProfile -InterfaceAlias '",
                name,
                "' -NetworkCategory Private -ErrorAction Stop",
            );
            Ok(powershell_args(script.as_str()))
        },
        Err(e) => Err(e),
    }
}

/// What follows an attempt to run a command.
#[derive(Debug, Clone, Copy, PartialEq, Eq, Structural)]
pub enum Retry {
    /// It went well.
    Succeeded,
    /// It is to be tried again after this many milliseconds.
    Again(u64),
    /// It is given up after this many milliseconds.
    GivenUp(u64),
}

/// How often a command is tried.
pub const MAX_ATTEMPTS: u32 = 3;

/// What follows the attempt with a number, counted from one.
pub open spec fn retry_after(attempt: u32, success: bool) -> Retry {
    if success {
        Retry::Succeeded
    } else if attempt < MAX_ATTEMPTS {
        Retry::Again(400)
    } else {
        Retry::GivenUp(400)
    }
}

/// Decides what follows an attempt.
pub fn after_attempt(attempt: u32, success: bool) -> (r: Retry)
    ensures
        r == retry_after(attempt, success),
{
    if success {
        Retry::Succeeded
    } else if attempt < MAX_ATTEMPTS {
        Retry::Again(400)
    } else {
        Retry::GivenUp(400)
    }
}

/// The script that asks for the status of a file's signature.
pub open spec fn signature_script(dll: Seq<char>) -> Seq<char> {
    "(Get-AuthenticodeSignature -FilePath '"@ + dll + "').Status.ToString()"@
}

/// What PowerShell is to run for the status of a file's signature.
pub fn signature_args(dll: &str) -> (r: Vec<String>)
    ensures
        word_texts(r@) == powershell_words(signature_script(dll@)),
{
    let script: String = joined(
        "(Get-AuthenticodeSignature -FilePath '",
        dll,
        "').Status.ToString()",
    );
    powershell_args(script.as_str())
}

/// Validates the Authenticode digital signature of wintun.dll to prevent DLL hijacking
/// and unauthorized driver execution, by what PowerShell printed. Where unsigned drivers are
/// allowed, or in a debug build, any status will do.
pub fn verify_wintun_dll_signature(allow_unsigned: bool, printed: &str, debug_build: bool) -> (r:
    Result<(), TunnelError>)
    ensures
        match r {
            Ok(_) => allow_unsigned || trimmed(printed@) == "Valid"@ || debug_build,
            Err(e) => {
                &&& !allow_unsigned
                &&& trimmed(printed@) != "Valid"@
                &&& !debug_build
                &&& e matches TunnelError::Untrusted(status) && status@ == trimmed(printed@)
            },
        },
{
    if allow_unsigned {
        return Ok(());
    }
    let status: String = trim(printed);
    if same_text(status.as_str(), "Valid") || debug_build {
        Ok(())
    } else {
        Err(TunnelError::Untrusted(status))
    }
}

/// The firewall script up to where the first rule names the adapter.
pub const FIREWALL_TCP: &'static str = r#"
        Remove-NetFirewallRule -DisplayName 'ElysiumLAN-Block-Inbound-HostPorts-TCP' -ErrorAction SilentlyContinue
        Remove-NetFirewallRule -DisplayName 'ElysiumLAN-Block-Inbound-HostPorts-UDP' -ErrorAction SilentlyContinue
        Remove-NetFirewallRule -DisplayName 'ElysiumLAN-Allow-ICMP' -ErrorAction SilentlyContinue

        New-NetFirewallRule -DisplayName 'ElysiumLAN-Block-Inbound-HostPorts-TCP' -Direction Inbound -Action Block -Protocol TCP -LocalPort 135,137,138,139,445,3389,5985,5986 -InterfaceAlias '"#;

/// The firewall script from there up to where the second rule names the adapter.
pub const FIREWALL_UDP: &'static str = r#"' -ErrorAction SilentlyContinue
        New-NetFirewallRule -DisplayName 'ElysiumLAN-Block-Inbound-HostPorts-UDP' -Direction Inbound -Action Block -Protocol UDP -LocalPort 137,138,5353,5355 -InterfaceAlias '"#;

/// The firewall script from there up to where the third rule names the adapter.
pub const FIREWALL_ICMP: &'static str = r#"' -ErrorAction SilentlyContinue
        New-NetFirewallRule -DisplayName 'ElysiumLAN-Allow-ICMP' -Direction Inbound -Action Allow -Protocol ICMPv4 -IcmpType 8 -InterfaceAlias '"#;

/// The end of the firewall script.
pub const FIREWALL_END: &'static str = r#"' -ErrorAction SilentlyContinue
        "#;

/// The script that takes the firewall rules away.
pub const FIREWALL_CLEANUP: &'static str = r#"
        Remove-NetFirewallRule -DisplayName 'ElysiumLAN-Block-Inbound-HostPorts-TCP' -ErrorAction SilentlyContinue
        Remove-NetFirewallRule -DisplayName 'ElysiumLAN-Block-Inbound-HostPorts-UDP' -ErrorAction SilentlyContinue
        Remove-NetFirewallRule -DisplayName 'ElysiumLAN-Allow-ICMP' -ErrorAction SilentlyContinue
    "#;

/// The script that sets the firewall rules for an adapter.
pub open spec fn firewall_script(name: Seq<char>) -> Seq<char> {
    FIREWALL_TCP@ + name + FIREWALL_UDP@ + name + FIREWALL_ICMP@ + name + FIREWALL_END@
}

/// Configures Windows Firewall rules on the ElysiumLAN virtual interface to block
/// lateral movement to sensitive Windows services (SMB 445, NetBIOS 137-139, RPC 135,
/// RDP 3389, WinRM 5985/5986) while allowing ICMP echo (ping) and gaming ports: what PowerShell
/// is to run.
pub fn harden_elysium_firewall(name: &str) -> (r: Result<Vec<String>, TunnelError>)
    ensures
        match r {
            Ok(args) => safe_name(name@) && word_texts(args@) == powershell_words(
                firewall_script(name@),
            ),
            Err(e) => !safe_name(name@) && (e matches TunnelError::InvalidName(n) && n@ == name@),
        },
{
    match check_adapter_name(name) {
        Ok(_) => {
            let mut script: String = joined(FIREWALL_TCP, name, FIREWALL_UDP);
            script.append(name);
            script.append(FIREWALL_ICMP);
            script.append(name);
            script.append(FIREWALL_END);
            Ok(powershell_args(script.as_str()))
        },
        Err(e) => Err(e),
    }
}

/// Removes Elysium Windows Firewall rules during shutdown: what PowerShell is to run.
pub fn cleanup_elysium_firewall() -> (r: Vec<String>)
    ensures
        word_texts(r@) == powershell_words(FIREWALL_CLEANUP@),
{
    powershell_args(FIREWALL_CLEANUP)
}

/// The words with which netsh gives an adapter its address.
pub open spec fn set_address_words(name: Seq<char>, ip: Ipv4Addr, mask: Ipv4Addr) -> Seq<Seq<char>> {
    seq![
        "interface"@,
        "ipv4"@,
        "set"@,
        "address"@,
        "name="@ + name,
        "static"@,
        ip.dotted(),
        mask.dotted(),
    ]
}

/// The words with which netsh gives an adapter its address.
fn set_address_args(name: &str, ip: Ipv4Addr, mask: Ipv4Addr) -> (r: Vec<String>)
    ensures
        word_texts(r@) == set_address_words(name@, ip, mask),
{
    let r: Vec<String> = with_word(no_words(), "interface");
    let r: Vec<String> = with_word(r, "ipv4");
    let r: Vec<String> = with_word(r, "set");
    let r: Vec<String> = with_word(r, "address");
    let r: Vec<String> = with_word(r, prefixed("name=", name).as_str());
    let r: Vec<String> = with_word(r, "static");
    let r: Vec<String> = with_word(r, ip.to_text().as_str());
    let r: Vec<String> = with_word(r, mask.to_text().as_str());
    assert(word_texts(r@) =~= set_address_words(name@, ip, mask));
    r
}

/// The words with which netsh keeps other traffic off an adapter.
pub open spec fn set_metric_words(name: Seq<char>) -> Seq<Seq<char>> {
    seq![
        "interface"@,
        "ipv4"@,
        "set"@,
        "interface"@,
        "interface="@ + name,
        "metric=9999"@,
    ]
}

/// The words with which netsh keeps other traffic off an adapter.
fn set_metric_args(name: &str) -> (r: Vec<String>)
    ensures
        word_texts(r@) == set_metric_words(name@),
{
    let r: Vec<String> = with_word(no_words(), "interface");
    let r: Vec<String> = with_word(r, "ipv4");
    let r: Vec<String> = with_word(r, "set");
    let r: Vec<String> = with_word(r, "interface");
    let r: Vec<String> = with_word(r, prefixed("interface=", name).as_str());
    let r: Vec<String> = with_word(r, "metric=9999");
    assert(word_texts(r@) =~= set_metric_words(name@));
    r
}

/// The words with which netsh keeps packets small enough to be wrapped up.
pub open spec fn set_mtu_words(name: Seq<char>) -> Seq<Seq<char>> {
    seq![
        "interface"@,
        "ipv4"@,
        "set"@,
        "subinterface"@,
        name,
        "mtu=1380"@,
        "store=active"@,
    ]
}

/// The words with which netsh keeps packets small enough to be wrapped up.
fn set_mtu_args(name: &str) -> (r: Vec<String>)
    ensures
        word_texts(r@) == set_mtu_words(name@),
{
    let r: Vec<String> = with_word(no_words(), "interface");
    let r: Vec<String> = with_word(r, "ipv4");
    let r: Vec<String> = with_word(r, "set");
    let r: Vec<String> = with_word(r, "subinterface");
    let r: Vec<String> = with_word(r, name);
    let r: Vec<String> = with_word(r, "mtu=1380");
    let r: Vec<String> = with_word(r, "store=active");
    assert(word_texts(r@) =~= set_mtu_words(name@));
    r
}

/// The words with which netsh binds a network to an adapter.
pub open spec fn add_route_words(network: Seq<char>, name: Seq<char>, ip: Ipv4Addr) -> Seq<Seq<char>> {
    seq![
        "interface"@,
        "ipv4"@,
        "add"@,
        "route"@,
        network,
        name,
        ip.dotted(),
        "metric=1"@,
        "store=active"@,
    ]
}

/// The words with which netsh binds a network to an adapter.
fn add_route_args(network: &str, name: &str, ip: Ipv4Addr) -> (r: Vec<String>)
    ensures
        word_texts(r@) == add_route_words(network@, name@, ip),
{
    let r: Vec<String> = with_word(no_words(), "interface");
    let r: Vec<String> = with_word(r, "ipv4");
    let r: Vec<String> = with_word(r, "add");
    let r: Vec<String> = with_word(r, "route");
    let r: Vec<String> = with_word(r, network);
    let r: Vec<String> = with_word(r, name);
    let r: Vec<String> = with_word(r, ip.to_text().as_str());
    let r: Vec<String> = with_word(r, "metric=1");
    let r: Vec<String> = with_word(r, "store=active");
    assert(word_texts(r@) =~= add_route_words(network@, name@, ip));
    r
}

/// The words with which netsh takes a network from an adapter.
pub open spec fn delete_route_words(network: Seq<char>, name: Seq<char>) -> Seq<Seq<char>> {
    seq![
        "interface"@,
        "ipv4"@,
        "delete"@,
        "route"@,
        network,
        name,
    ]
}

/// The words with which netsh takes a network from an adapter.
fn delete_route_args(network: &str, name: &str) -> (r: Vec<String>)
    ensures
        word_texts(r@) == delete_route_words(network@, name@),
{
    let r: Vec<String> = with_word(no_words(), "interface");
    let r: Vec<String> = with_word(r, "ipv4");
    let r: Vec<String> = with_word(r, "delete");
    let r: Vec<String> = with_word(r, "route");
    let r: Vec<String> = with_word(r, network);
    let r: Vec<String> = with_word(r, name);
    assert(word_texts(r@) =~= delete_route_words(network@, name@));
    r
}

/// Manages the WinTUN virtual adapter: whether there is a session to write to.
pub struct TunnelManager {
    started: bool,
}

impl TunnelManager {
    /// There is a session.
    pub closed spec fn is_started(&self) -> bool {
        self.started
    }

    /// An adapter without a session, unless its name is an unsafe one.
    pub fn create_adapter(name: &str) -> (r: Result<TunnelManager, TunnelError>)
        ensures
            match r {
                Ok(m) => safe_name(name@) && !m.is_started(),
                Err(e) => !safe_name(name@) && (e matches TunnelError::InvalidName(n) && n@
                    == name@),
            },
    {
        match check_adapter_name(name) {
            Ok(_) => Ok(TunnelManager { started: false }),
            Err(e) => Err(e),
        }
    }

    /// Configures the adapter IP using netsh command: the words of the commands, in their order.
    /// The first is the one that must go well. The others keep the default route off the
    /// adapter, set its MTU, and bind the virtual subnet and its broadcast address to it.
    pub fn set_ip(name: &str, ip: Ipv4Addr, mask: Ipv4Addr) -> (r: Vec<Vec<String>>)
        ensures
            command_texts(r@) == seq![
                set_address_words(name@, ip, mask),
                set_metric_words(name@),
                set_mtu_words(name@),
                add_route_words("10.7.0.0/24"@, name@, ip),
                add_route_words("10.7.0.255/32"@, name@, ip),
            ],
    {
        let mut r: Vec<Vec<String>> = Vec::new();
        r.push(set_address_args(name, ip, mask));
        r.push(set_metric_args(name));
        r.push(set_mtu_args(name));
        r.push(add_route_args("10.7.0.0/24", name, ip));
        r.push(add_route_args("10.7.0.255/32", name, ip));
        assert(command_texts(r@) =~= seq![
            set_address_words(name@, ip, mask),
            set_metric_words(name@),
            set_mtu_words(name@),
            add_route_words("10.7.0.0/24"@, name@, ip),
            add_route_words("10.7.0.255/32"@, name@, ip),
        ]);
        r
    }

    /// Takes note of a session.
    pub fn start_reading(&mut self)
        ensures
            final(self).is_started(),
    {
        self.started = true;
    }

    /// Refuses a packet that is empty, or longer than sixteen bits can say.
    pub fn validate_packet_size(size: usize) -> (r: Result<(), TunnelError>)
        ensures
            match r {
                Ok(_) => 1 <= size <= u16::MAX,
                Err(e) => !(1 <= size <= u16::MAX) && e == TunnelError::PacketSize(size),
            },
    {
        if size > u16::MAX as usize || size == 0 {
            Err(TunnelError::PacketSize(size))
        } else {
            Ok(())
        }
    }

    /// Decides whether a decrypted packet may be written to the TUN adapter, and in what size.
    pub fn write_packet(&self, packet: &[u8]) -> (r: Result<u16, TunnelError>)
        ensures
            match r {
                Ok(size) => 1 <= packet@.len() <= u16::MAX && self.is_started() && size
                    == packet@.len(),
                Err(e) => if 1 <= packet@.len() <= u16::MAX {
                    !self.is_started() && e is NotStarted
                } else {
                    e == TunnelError::PacketSize(packet@.len() as usize)
                },
            },
    {
        match TunnelManager::validate_packet_size(packet.len()) {
            Ok(_) => if self.started {
                Ok(packet.len() as u16)
            } else {
                Err(TunnelError::NotStarted)
            },
            Err(e) => Err(e),
        }
    }

    /// Closes session and removes adapter routes: the words of the commands for netsh, given
    /// the name of the adapter, if it is known.
    pub fn shutdown(&mut self, name: Option<&str>) -> (r: Vec<Vec<String>>)
        ensures
            !final(self).is_started(),
            command_texts(r@) == match name {
                Some(name) => seq![
                    delete_route_words("10.7.0.0/24"@, name@),
                    delete_route_words("10.7.0.255/32"@, name@),
                ],
                None => seq![],
            },
    {
        self.started = false;
        let mut r: Vec<Vec<String>> = Vec::new();
        if let Some(name) = name {
            r.push(delete_route_args("10.7.0.0/24", name));
            r.push(delete_route_args("10.7.0.255/32", name));
            assert(command_texts(r@) =~= seq![
                delete_route_words("10.7.0.0/24"@, name@),
                delete_route_words("10.7.0.255/32"@, name@),
            ]);
        } else {
            assert(command_texts(r@) =~= seq![]);
        }
        r
    }
}

/// The words with which netsh lets connections to a program in.
pub open spec fn app_firewall_words(program: Seq<char>) -> Seq<Seq<char>> {
    seq![
        "advfirewall"@,
        "firewall"@,
        "add"@,
        "rule"@,
        "name=Elysium LAN"@,
        "dir=in"@,
        "action=allow"@,
        "program="@ + program,
        "enable=yes"@,
    ]
}

/// The words with which netsh lets connections to a program in.
pub fn app_firewall_args(program: &str) -> (r: Vec<String>)
    ensures
        word_texts(r@) == app_firewall_words(program@),
{
    let r: Vec<String> = with_word(no_words(), "advfirewall");
    let r: Vec<String> = with_word(r, "firewall");
    let r: Vec<String> = with_word(r, "add");
    let r: Vec<String> = with_word(r, "rule");
    let r: Vec<String> = with_word(r, "name=Elysium LAN");
    let r: Vec<String> = with_word(r, "dir=in");
    let r: Vec<String> = with_word(r, "action=allow");
    let r: Vec<String> = with_word(r, prefixed("program=", program).as_str());
    let r: Vec<String> = with_word(r, "enable=yes");
    assert(word_texts(r@) =~= app_firewall_words(program@));
    r
}

/// A command is tried three times, with 400 milliseconds behind each failure, and not again once it
/// went well.
pub proof fn law_commands_are_tried_three_times(attempt: u32)
    ensures
        retry_after(attempt, true) == Retry::Succeeded,
        attempt <= 2 ==> retry_after(attempt, false) == Retry::Again(400),
        attempt >= 3 ==> retry_after(attempt, false) == Retry::GivenUp(400),
{
}

/// A name is safe exactly if it is made of letters and digits of ASCII, hyphens and underscores.
pub proof fn law_safe_names(name: Seq<char>)
    ensures
        safe_name(name) <==> forall|i: int|
            0 <= i < name.len() ==> (48 <= #[trigger] name[i] as u32 <= 57 || 65 <= name[i] as u32 <= 90
                || 97 <= name[i] as u32 <= 122 || name[i] == '-' || name[i] == '_'),
{
    if safe_name(name) {
        assert forall|i: int| 0 <= i < name.len() implies (48 <= #[trigger] name[i] as u32 <= 57 || 65
            <= name[i] as u32 <= 90 || 97 <= name[i] as u32 <= 122 || name[i] == '-' || name[i]
            == '_') by {
            assert(safe_char(name[i]));
        }
    } else {
        let i = choose|i: int| 0 <= i < name.len() && !safe_char(#[trigger] name[i]);
        assert(!safe_char(name[i]));
    }
}

/// The commands around an adapter name the adapter, its address and its mask as they are.
pub proof fn law_commands_name_the_adapter(
    name: Seq<char>,
    ip: Ipv4Addr,
    mask: Ipv4Addr,
    network: Seq<char>,
)
    ensures
        ({
            let set = set_address_words(name, ip, mask);
            let n = set.len() as int;
            &&& n >= 3
            &&& set[n - 3] == "static"@
            &&& set[n - 2] == ip.dotted()
            &&& set[n - 1] == mask.dotted()
            &&& set[n - 4] == "name="@ + name
        }),
        set_metric_words(name).last() == "metric=9999"@,
        set_mtu_words(name).contains(name),
        set_mtu_words(name).contains("mtu=1380"@),
        add_route_words(network, name, ip).contains(network),
        add_route_words(network, name, ip).contains(name),
        add_route_words(network, name, ip).contains(ip.dotted()),
        delete_route_words(network, name).contains(network),
        delete_route_words(network, name).contains(name),
{
    assert(set_mtu_words(name)[4] == name);
    assert(set_mtu_words(name)[5] == "mtu=1380"@);
    assert(add_route_words(network, name, ip)[4] == network);
    assert(add_route_words(network, name, ip)[5] == name);
    assert(add_route_words(network, name, ip)[6] == ip.dotted());
    assert(delete_route_words(network, name)[4] == network);
    assert(delete_route_words(network, name)[5] == name);
}

/// A script reaches PowerShell as it is, behind the five words that keep it to itself.
pub proof fn law_scripts_reach_powershell(script: Seq<char>)
    ensures
        powershell_words(script).len() == 6,
        powershell_words(script)[4] == "-Command"@,
        powershell_words(script)[5] == script,
{
}

} // verus!
