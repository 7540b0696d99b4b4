//! Settings: what they start as and how ports are picked.

use crate::clock::{nanos_of, read_clock};
use crate::text::{opt_view, views};
use vstd::prelude::*;

verus! {

/// Who may send.
#[derive(Debug, Clone, Copy, PartialEq, Eq, Structural)]
pub enum AllowMode {
    All,
    Contacts,
}

/// A peer that the user entered by hand.
#[derive(Debug)]
pub struct ManualPeer {
    pub id: String,
    pub name: String,
    pub host: String,
    pub transfer_port: u16,
    pub http_port: u16,
}

/// What the user has chosen, and the ports of this device.
#[derive(Debug)]
pub struct Settings {
    pub device_name: String,
    /// A single emoji.
    pub device_avatar: String,
    pub save_dir: String,
    pub allow_mode: AllowMode,
    /// Ask the user before each transfer.
    pub require_accept: bool,
    /// Run the upload page for phones.
    pub enable_qr_server: bool,
    /// Kept, so that other devices find this one again after a restart.
    pub transfer_port: u16,
    /// Kept, so that the upload address stays the same.
    pub http_port: u16,
    pub manual_peers: Vec<ManualPeer>,
}

/// A hand-entered peer as a mathematical value.
#[verifier::ext_equal]
pub struct ManualPeerView {
    pub id: Seq<char>,
    pub name: Seq<char>,
    pub host: Seq<char>,
    pub transfer_port: u16,
    pub http_port: u16,
}

/// Settings as a mathematical value.
#[verifier::ext_equal]
pub struct SettingsView {
    pub device_name: Seq<char>,
    pub device_avatar: Seq<char>,
    pub save_dir: Seq<char>,
    pub allow_mode: AllowMode,
    pub require_accept: bool,
    pub enable_qr_server: bool,
    pub transfer_port: u16,
    pub http_port: u16,
    pub manual_peers: Seq<ManualPeerView>,
}

impl View for ManualPeer {
    type V = ManualPeerView;

    open spec fn view(&self) -> ManualPeerView {
        ManualPeerView {
            id: self.id@,
            name: self.name@,
            host: self.host@,
            transfer_port: self.transfer_port,
            http_port: self.http_port,
        }
    }
}

impl View for Settings {
    type V = SettingsView;

    open spec fn view(&self) -> SettingsView {
        SettingsView {
            device_name: self.device_name@,
            device_avatar: self.device_avatar@,
            save_dir: self.save_dir@,
            allow_mode: self.allow_mode,
            require_accept: self.require_accept,
            enable_qr_server: self.enable_qr_server,
            transfer_port: self.transfer_port,
            http_port: self.http_port,
            manual_peers: views(self.manual_peers@),
        }
    }
}

impl Clone for ManualPeer {
    fn clone(&self) -> (r: Self)
        ensures
            r@ == self@,
    {
        ManualPeer {
            id: self.id.clone(),
            name: self.name.clone(),
            host: self.host.clone(),
            transfer_port: self.transfer_port,
            http_port: self.http_port,
        }
    }
}

impl Clone for Settings {
    fn clone(&self) -> (r: Self)
        ensures
            r@ == self@,
    {
        Settings {
            device_name: self.device_name.clone(),
            device_avatar: self.device_avatar.clone(),
            save_dir: self.save_dir.clone(),
            allow_mode: self.allow_mode,
            require_accept: self.require_accept,
            enable_qr_server: self.enable_qr_server,
            transfer_port: self.transfer_port,
            http_port: self.http_port,
            manual_peers: self.manual_peers.clone(),
        }
    }
}

/// The port of the upload page on a new installation.
pub const DEFAULT_HTTP_PORT: u16 = 7878;

/// The tag that the transfer port is picked with.
pub const TRANSFER_PORT_TAG: u8 = 0xb1;

/// The first port of the range for private use.
pub const FIRST_PRIVATE_PORT: u16 = 49152;

/// The port for `tag` when the clock shows `nanos`: an offset into the ports for private use, from
/// the low 32 bits of the clock.
pub open spec fn port_at(tag: u8, nanos: u64) -> int {
    FIRST_PRIVATE_PORT + ((nanos % 0x1_0000_0000) + tag) % 0x1_0000_0000 % (65535
        - FIRST_PRIVATE_PORT)
}

/// The port for `tag` when the clock shows `nanos`.
pub fn pick_port_at(tag: u8, nanos: u64) -> (r: u16)
    ensures
        r as int == port_at(tag, nanos),
        FIRST_PRIVATE_PORT <= r < 65535,
{
    let low: u32 = (nanos % 0x1_0000_0000) as u32;
    let shifted: u32 = low.wrapping_add(tag as u32);
    let span: u32 = 65535 - FIRST_PRIVATE_PORT as u32;
    FIRST_PRIVATE_PORT + (shifted % span) as u16
}

/// The port for `tag` when called.
pub fn pick_port(tag: u8) -> (r: u16)
    ensures
        exists|nanos: u64| r as int == #[trigger] port_at(tag, nanos),
        FIRST_PRIVATE_PORT <= r < 65535,
{
    let nanos: u64 = nanos_of(read_clock());
    pick_port_at(tag, nanos)
}

impl SettingsView {
    /// The settings of a new installation.
    pub open spec fn initial(name: Seq<char>, save_dir: Seq<char>, transfer_port: u16) -> SettingsView {
        SettingsView {
            device_name: name,
            device_avatar: "💻"@,
            save_dir,
            allow_mode: AllowMode::All,
            require_accept: true,
            enable_qr_server: false,
            transfer_port,
            http_port: DEFAULT_HTTP_PORT,
            manual_peers: Seq::empty(),
        }
    }
}

impl Settings {
    /// Whether the upload page for phones is served.
    pub fn serves_phones(&self) -> (r: bool)
        ensures
            r == self@.enable_qr_server,
    {
        self.enable_qr_server
    }

    /// The settings of a new installation whose transfer port has been picked.
    pub fn initial(name: String, save_dir: String, transfer_port: u16) -> (r: Self)
        ensures
            r@ == SettingsView::initial(name@, save_dir@, transfer_port),
    {
        Settings {
            device_name: name,
            device_avatar: "💻".to_string(),
            save_dir,
            allow_mode: AllowMode::All,
            require_accept: true,
            enable_qr_server: false,
            transfer_port,
            http_port: DEFAULT_HTTP_PORT,
            manual_peers: Vec::new(),
        }
    }

    /// The settings of a new installation.
    pub fn default_with(name: String, save_dir: String) -> (r: Self)
        ensures
            r@ == SettingsView::initial(name@, save_dir@, r.transfer_port),
            exists|nanos: u64| r.transfer_port as int == #[trigger] port_at(TRANSFER_PORT_TAG, nanos),
            FIRST_PRIVATE_PORT <= r.transfer_port < 65535,
    {
        let port: u16 = pick_port(TRANSFER_PORT_TAG);
        Settings::initial(name, save_dir, port)
    }

    /// The settings to start with, and whether they are new and are to be stored: those that were
    /// read from the store, or else those of a new installation on a host of this name.
    pub fn load_or_create(stored: Option<Settings>, hostname: Option<String>, save_dir: String) -> (r: (
        Self,
        bool,
    ))
        ensures
            r.1 == (stored is None),
            match stored {
                Some(s) => r.0@ == s@,
                None => {
                    &&& r.0@ == SettingsView::initial(
                        name_of_host(opt_view(hostname)),
                        save_dir@,
                        r.0.transfer_port,
                    )
                    &&& exists|nanos: u64|
                        r.0.transfer_port as int == #[trigger] port_at(TRANSFER_PORT_TAG, nanos)
                    &&& FIRST_PRIVATE_PORT <= r.0.transfer_port < 65535
                },
            },
    {
        match stored {
            Some(s) => (s, false),
            None => (Settings::default_with(initial_device_name(hostname), save_dir), true),
        }
    }
}

/// The name of a new installation: the host's, where it has one that is text.
pub open spec fn name_of_host(hostname: Option<Seq<char>>) -> Seq<char> {
    match hostname {
        Some(n) => n,
        None => "My Computer"@,
    }
}

/// The name of a new installation: the host's, where it has one that is text.
pub fn initial_device_name(hostname: Option<String>) -> (r: String)
    ensures
        r@ == name_of_host(opt_view(hostname)),
{
    match hostname {
        Some(n) => n,
        None => "My Computer".to_string(),
    }
}

/// The directory above the save folder of a new installation: the documents directory, else the
/// home directory, else the working directory.
pub fn initial_base_dir(documents: Option<String>, home: Option<String>) -> (r: String)
    ensures
        r@ == (match (opt_view(documents), opt_view(home)) {
            (Some(d), _) => d,
            (None, Some(h)) => h,
            (None, None) => "."@,
        }),
{
    match documents {
        Some(d) => d,
        None => match home {
            Some(h) => h,
            None => ".".to_string(),
        },
    }
}

/// A new installation has the name and the directory that it is given, lets every device send, asks before
/// each transfer, serves no phones, and knows no device.
pub proof fn new_installation_asks_first(name: Seq<char>, save_dir: Seq<char>, transfer_port: u16)
    ensures
        ({
            let s = SettingsView::initial(name, save_dir, transfer_port);
            &&& s.device_name == name
            &&& s.save_dir == save_dir
            &&& s.transfer_port == transfer_port
            &&& s.http_port == 7878
            &&& s.device_avatar == "💻"@
            &&& s.allow_mode == AllowMode::All
            &&& s.require_accept
            &&& !s.enable_qr_server
            &&& s.manual_peers.len() == 0
        }),
{
}

/// Every picked port is one for private use, and the ports follow the clock: a nanosecond later, or with
/// the next tag, the next port comes, and after the last the first again, but for the moment at which the
/// low bits of the sum start anew.
pub proof fn ports_follow_the_clock(tag: u8, nanos: u64)
    ensures
        49152 <= port_at(tag, nanos) < 65535,
        nanos % 0x1_0000_0000 + tag + 1 < 0x1_0000_0000 ==> port_at(tag, (nanos + 1) as u64) == (
        if port_at(tag, nanos) == 65534 {
            49152
        } else {
            port_at(tag, nanos) + 1
        }),
        tag < 255 && nanos % 0x1_0000_0000 + 1 < 0x1_0000_0000 ==> port_at(
            (tag + 1) as u8,
            nanos,
        ) == port_at(tag, (nanos + 1) as u64),
        port_at(0, 0) == 49152,
{
    let low = nanos as int % 0x1_0000_0000;
    let sum = low + tag;
    if low + 1 < 0x1_0000_0000 {
        assert((nanos + 1) % 0x1_0000_0000 == low + 1);
    }
    lemma_next_remainder(sum);
    if sum + 1 < 0x1_0000_0000 {
        assert(sum % 0x1_0000_0000 == sum);
        assert((sum + 1) % 0x1_0000_0000 == sum + 1);
    }
}

/// The remainder of the next number is the next remainder, or starts anew.
proof fn lemma_next_remainder(n: int)
    ensures
        (n + 1) % 16383 == (if n % 16383 == 16382 {
            0
        } else {
            n % 16383 + 1
        }),
{
}

/// A new installation is named after its host, and has a name of its own where the host has none.
pub proof fn installation_is_named_after_host(hostname: Option<Seq<char>>)
    ensures
        hostname matches Some(n) ==> name_of_host(hostname) == n,
        hostname is None ==> name_of_host(hostname) == "My Computer"@,
{
}

} // verus!
