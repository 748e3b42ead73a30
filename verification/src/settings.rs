//! Process-wide runtime settings and the live data-plane knobs.
use vstd::prelude::*;

verus! {

/// Seconds between two traffic reports when nothing else is configured.
pub fn default_report_interval() -> (r: u64)
    ensures
        r == 60,
{
    60
}

/// Seconds between two throughput samples when nothing else is configured.
pub fn default_sample_interval() -> (r: u64)
    ensures
        r == 1,
{
    1
}

/// Bytes of each copy buffer when nothing else is configured.
pub fn default_buffer_bytes() -> (r: usize)
    ensures
        r == 65536,
{
    65536
}

/// Whether the zero-copy path is used when nothing else is configured.
pub fn default_use_splice() -> (r: bool)
    ensures
        r == false,
{
    false
}

/// The text that an optional string holds.
pub open spec fn optional_text(s: Option<String>) -> Option<Seq<char>> {
    match s {
        Some(t) => Some(t@),
        None => None,
    }
}

/// Process-global runtime settings (one HTTP endpoint, one sampler, one reporter).
#[derive(Debug)]
pub struct Settings {
    /// `host:port` for the HTTP stats endpoint. `None` disables it.
    pub metrics_addr: Option<String>,
    /// Periodic log report cadence, seconds.
    pub report_interval_secs: u64,
    /// Throughput-rate sampling cadence, seconds.
    pub sample_interval_secs: u64,
    /// Per-direction copy buffer size, bytes.
    pub buffer_bytes: usize,
    /// Kernel socket buffer size per socket, bytes. `None` leaves the OS default.
    pub socket_buffer_bytes: Option<usize>,
    /// Use the Linux `splice(2)` zero-copy data path.
    pub use_splice: bool,
}

/// What [`Settings`] say.
#[verifier::ext_equal]
pub struct SettingsSpec {
    pub metrics_addr: Option<Seq<char>>,
    pub report_interval_secs: u64,
    pub sample_interval_secs: u64,
    pub buffer_bytes: usize,
    pub socket_buffer_bytes: Option<usize>,
    pub use_splice: bool,
}

impl View for Settings {
    type V = SettingsSpec;

    open spec fn view(&self) -> SettingsSpec {
        SettingsSpec {
            metrics_addr: optional_text(self.metrics_addr),
            report_interval_secs: self.report_interval_secs,
            sample_interval_secs: self.sample_interval_secs,
            buffer_bytes: self.buffer_bytes,
            socket_buffer_bytes: self.socket_buffer_bytes,
            use_splice: self.use_splice,
        }
    }
}

/// The settings in force when nothing is configured.
pub open spec fn default_settings() -> SettingsSpec {
    SettingsSpec {
        metrics_addr: None,
        report_interval_secs: 60,
        sample_interval_secs: 1,
        buffer_bytes: 65536,
        socket_buffer_bytes: None,
        use_splice: false,
    }
}

impl Default for Settings {
    fn default() -> (r: Self)
        ensures
            r@ == default_settings(),
            r.metrics_addr is None,
            r.report_interval_secs == 60,
            r.sample_interval_secs == 1,
            r.buffer_bytes == 65536,
            r.socket_buffer_bytes is None,
            !r.use_splice,
    {
        Settings {
            metrics_addr: None,
            report_interval_secs: default_report_interval(),
            sample_interval_secs: default_sample_interval(),
            buffer_bytes: default_buffer_bytes(),
            socket_buffer_bytes: None,
            use_splice: default_use_splice(),
        }
    }
}

impl Clone for Settings {
    fn clone(&self) -> (r: Self)
        ensures
            r@ == self@,
    {
        let metrics_addr = match &self.metrics_addr {
            Some(s) => Some(s.clone()),
            None => None,
        };
        Settings {
            metrics_addr,
            report_interval_secs: self.report_interval_secs,
            sample_interval_secs: self.sample_interval_secs,
            buffer_bytes: self.buffer_bytes,
            socket_buffer_bytes: self.socket_buffer_bytes,
            use_splice: self.use_splice,
        }
    }
}

/// The data-plane values that one connection uses from its start to its end.
#[derive(Clone, Copy, Debug, PartialEq, Eq, Structural)]
pub struct ConnSettings {
    /// Per-direction copy buffer size, bytes.
    pub buffer_bytes: usize,
    /// Kernel socket buffer size, bytes; `None` leaves the OS default in place.
    pub socket_buffer_bytes: Option<usize>,
    /// Whether the zero-copy path is asked for.
    pub use_splice: bool,
}

/// Live copy of the data-plane knobs shared by every connection.
///
/// Each new connection reads the current values; a reload replaces them, so connections
/// accepted later pick up the change and those in flight keep what they have.
#[derive(Debug)]
pub struct RuntimeKnobs {
    buffer_bytes: usize,
    /// `0` means "leave the OS default".
    socket_buffer_bytes: usize,
    use_splice: bool,
}

impl View for RuntimeKnobs {
    type V = ConnSettings;

    closed spec fn view(&self) -> ConnSettings {
        ConnSettings {
            buffer_bytes: self.buffer_bytes,
            socket_buffer_bytes: if self.socket_buffer_bytes == 0 {
                None
            } else {
                Some(self.socket_buffer_bytes)
            },
            use_splice: self.use_splice,
        }
    }
}

/// The data-plane values that the settings ask for: a socket buffer of 0 bytes stands for the
/// OS default.
pub open spec fn knobs_of(s: SettingsSpec) -> ConnSettings {
    ConnSettings {
        buffer_bytes: s.buffer_bytes,
        socket_buffer_bytes: if s.socket_buffer_bytes == Some(0usize) {
            None
        } else {
            s.socket_buffer_bytes
        },
        use_splice: s.use_splice,
    }
}

impl RuntimeKnobs {
    /// The knobs that the settings ask for.
    pub fn from_settings(s: &Settings) -> (r: Self)
        ensures
            r@ == knobs_of(s@),
            r@.buffer_bytes == s.buffer_bytes,
            s.socket_buffer_bytes is None ==> r@.socket_buffer_bytes is None,
            s.socket_buffer_bytes matches Some(n) ==> r@.socket_buffer_bytes == (if n == 0 {
                None
            } else {
                Some(n)
            }),
            r@.use_splice == s.use_splice,
    {
        RuntimeKnobs {
            buffer_bytes: s.buffer_bytes,
            socket_buffer_bytes: s.socket_buffer_bytes.unwrap_or(0),
            use_splice: s.use_splice,
        }
    }

    /// Replaces the knobs by those that reloaded settings ask for.
    pub fn update(&mut self, s: &Settings)
        ensures
            final(self)@ == knobs_of(s@),
            final(self)@.buffer_bytes == s.buffer_bytes,
            s.socket_buffer_bytes is None ==> final(self)@.socket_buffer_bytes is None,
            s.socket_buffer_bytes matches Some(n) ==> final(self)@.socket_buffer_bytes == (if n
                == 0 {
                None
            } else {
                Some(n)
            }),
            final(self)@.use_splice == s.use_splice,
    {
        self.buffer_bytes = s.buffer_bytes;
        self.socket_buffer_bytes = s.socket_buffer_bytes.unwrap_or(0);
        self.use_splice = s.use_splice;
    }

    /// Bytes of each copy buffer.
    pub fn buffer_bytes(&self) -> (r: usize)
        ensures
            r == self@.buffer_bytes,
    {
        self.buffer_bytes
    }

    /// Bytes of the kernel socket buffers; `None` when the OS default is to be left in place.
    pub fn socket_buffer_bytes(&self) -> (r: Option<usize>)
        ensures
            r == self@.socket_buffer_bytes,
            r != Some(0usize),
    {
        match self.socket_buffer_bytes {
            0 => None,
            n => Some(n),
        }
    }

    /// Whether the zero-copy path is asked for.
    pub fn use_splice(&self) -> (r: bool)
        ensures
            r == self@.use_splice,
    {
        self.use_splice
    }

    /// The values that a connection accepted now uses.
    pub fn snapshot(&self) -> (r: ConnSettings)
        ensures
            r == self@,
    {
        ConnSettings {
            buffer_bytes: self.buffer_bytes(),
            socket_buffer_bytes: self.socket_buffer_bytes(),
            use_splice: self.use_splice(),
        }
    }
}

/// The view of settings shows each of them as it is.
pub proof fn law_settings_show_the_fields(s: Settings)
    ensures
        s@.metrics_addr is Some <==> s.metrics_addr is Some,
        s.metrics_addr matches Some(addr) ==> s@.metrics_addr == Some(addr@),
        s@.report_interval_secs == s.report_interval_secs,
        s@.sample_interval_secs == s.sample_interval_secs,
        s@.buffer_bytes == s.buffer_bytes,
        s@.socket_buffer_bytes == s.socket_buffer_bytes,
        s@.use_splice == s.use_splice,
{
}

/// A connection gets just what the settings ask for; a socket buffer of no bytes is the default of
/// the system. Settings that have no part in the data plane make no difference.
pub proof fn law_knobs_follow_the_settings(s: SettingsSpec, t: SettingsSpec)
    ensures
        knobs_of(s).buffer_bytes == s.buffer_bytes,
        knobs_of(s).use_splice == s.use_splice,
        s.socket_buffer_bytes is None ==> knobs_of(s).socket_buffer_bytes is None,
        s.socket_buffer_bytes matches Some(n) ==> (n > 0 ==> knobs_of(s).socket_buffer_bytes
            == Some(n)) && (n == 0 ==> knobs_of(s).socket_buffer_bytes is None),
        s.buffer_bytes == t.buffer_bytes && s.socket_buffer_bytes == t.socket_buffer_bytes
            && s.use_splice == t.use_splice ==> knobs_of(s) == knobs_of(t),
{
}

} // verus!
