//! The window's state and what its controls do.
//!
//! The program draws the window and runs what takes time. It asks [`App`] what to show and what to
//! run, and tells it what came of that.
use crate::adb;
use crate::adb::{Device, DeviceView, DisplayInfo, ServerOptions};
use crate::config;
use crate::config::{Config, ConfigView, Crop, CropPreset};
use crate::displays;
use crate::flat::FlatConfig;
use crate::stream::{Status, StreamConfig};
use crate::text;
use vstd::prelude::*;

verus! {

/// How long the settings must stay unchanged before they are saved, in milliseconds.
pub const QUIET_MILLIS: u64 = 500;

/// The bit rate of sound.
pub const AUDIO_BIT_RATE: u32 = 128_000;

/// The quality settings. A change takes a new connection to show.
#[derive(Clone, Copy, Debug, PartialEq, Eq, Structural)]
pub struct Settings {
    pub display_id: u32,
    pub max_size: u32,
    pub bitrate_mbps: u32,
    pub max_fps: u32,
    pub audio: bool,
}

impl Default for Settings {
    fn default() -> (r: Self)
        ensures
            r == (Settings {
                display_id: 0,
                max_size: 1920,
                bitrate_mbps: 16,
                max_fps: 0,
                audio: false,
            }),
    {
        Settings { display_id: 0, max_size: 1920, bitrate_mbps: 16, max_fps: 0, audio: false }
    }
}

/// How the picture is shown. The numbers are held as the bits that make them up.
#[derive(Clone, Copy, Debug, PartialEq, Eq, Structural)]
pub struct ViewParams {
    pub uv: Crop,
    /// Whether the distortion of the lens is undone.
    pub lens_correct: bool,
    pub lens_k1: u32,
    pub lens_k2: u32,
    pub rotation_deg: u32,
}

/// What the command line asks for beside the saved settings.
#[derive(Debug)]
pub struct StartupConfig {
    pub serial: Option<String>,
    pub display_id: Option<u32>,
    pub max_size: Option<u32>,
    pub bitrate_mbps: Option<u32>,
    pub max_fps: Option<u32>,
    pub audio: Option<bool>,
    /// Whether to connect at once.
    pub autostart: bool,
}

impl Default for StartupConfig {
    fn default() -> (r: Self)
        ensures
            r == (StartupConfig {
                serial: None,
                display_id: None,
                max_size: None,
                bitrate_mbps: None,
                max_fps: None,
                audio: None,
                autostart: false,
            }),
    {
        StartupConfig {
            serial: None,
            display_id: None,
            max_size: None,
            bitrate_mbps: None,
            max_fps: None,
            audio: None,
            autostart: false,
        }
    }
}

/// What is connected to over the network.
#[derive(Debug)]
pub enum Target {
    /// This address.
    One(String),
    /// Every address that is remembered.
    All,
}

/// Where the picture comes from.
#[derive(Clone, Copy, Debug, PartialEq, Eq, Structural)]
pub enum Source {
    /// The raw panel, as the server mirrors it.
    Panel,
    /// The flat view, as the agent composes it.
    Flat,
}

/// What the record button does.
#[derive(Clone, Copy, Debug, PartialEq, Eq, Structural)]
pub enum RecordToggle {
    /// Nothing is shown that could be recorded.
    Nothing,
    /// End the recording, wherever it runs.
    Stop,
    /// Record the flat view, which is what is on the screen.
    StartFlat,
    /// Record the panel as it is on the screen: cropped, flattened and turned like this.
    StartPanel(ViewParams),
}

/// What the window shows about the connection.
#[derive(Debug)]
pub enum StatusLine {
    Idle,
    Connecting,
    /// The size; the frame rate follows it.
    Streaming(String),
    Error(String),
    Stopped,
}

/// What a [`StatusLine`] says.
pub enum StatusLineView {
    Idle,
    Connecting,
    Streaming(Seq<char>),
    Error(Seq<char>),
    Stopped,
}

impl View for StatusLine {
    type V = StatusLineView;

    open spec fn view(&self) -> StatusLineView {
        match *self {
            StatusLine::Idle => StatusLineView::Idle,
            StatusLine::Connecting => StatusLineView::Connecting,
            StatusLine::Streaming(s) => StatusLineView::Streaming(s@),
            StatusLine::Error(s) => StatusLineView::Error(s@),
            StatusLine::Stopped => StatusLineView::Stopped,
        }
    }
}

/// What to show for a status, or for none.
pub open spec fn line_for(status: Option<Status>) -> StatusLineView {
    match status {
        None => StatusLineView::Idle,
        Some(Status::Connecting) => StatusLineView::Connecting,
        Some(Status::Streaming { width, height, rate }) => StatusLineView::Streaming(
            "● "@ + text::decimal(width as nat) + "×"@ + text::decimal(height as nat) + "  ·  "@,
        ),
        Some(Status::Error(e)) => StatusLineView::Error("⚠ "@ + e@),
        Some(Status::Stopped) => StatusLineView::Stopped,
    }
}

/// Says what to show for a status, or for none.
pub fn status_line(status: &Option<Status>) -> (r: StatusLine)
    ensures
        r@ == line_for(*status),
{
    match status {
        None => StatusLine::Idle,
        Some(Status::Connecting) => StatusLine::Connecting,
        Some(Status::Streaming { width, height, rate: _ }) => {
            let mut s = "● ".to_string();
            s.append(text::dec(*width as u64).as_str());
            s.append("×");
            s.append(text::dec(*height as u64).as_str());
            s.append("  ·  ");
            StatusLine::Streaming(s)
        },
        Some(Status::Error(e)) => {
            let mut s = "⚠ ".to_string();
            s.append(e.as_str());
            StatusLine::Error(s)
        },
        Some(Status::Stopped) => StatusLine::Stopped,
    }
}

/// Whether the displays can be asked for while the panel has this status, or is not mirrored: not
/// while the server is being connected to, whose jar that would delete.
pub fn fetch_safe(stream: &Option<Status>) -> (r: bool)
    ensures
        r == (line_for(*stream) != StatusLineView::Connecting),
        r == !(*stream matches Some(Status::Connecting)),
{
    match stream {
        Some(Status::Connecting) => false,
        _ => true,
    }
}

/// The window's state.
pub struct App {
    devices: Vec<Device>,
    selected: Option<String>,
    displays: Vec<DisplayInfo>,
    settings: Settings,
    view: ViewParams,
    /// What the panel is mirrored with, where it is.
    stream: Option<ServerOptions>,
    /// What the flat view is shown with, where it is.
    flat: Option<FlatConfig>,
    /// Whether there is a picture.
    texture: bool,
    /// The generation of the newest frame that was shown.
    last_generation: u64,
    /// What the last action came to.
    message: Option<String>,
    want_autostart: bool,
    /// Whether the displays are to be asked for, as soon as that is safe.
    need_display_fetch: bool,
    fetch_inflight: bool,
    remotes: Vec<String>,
    connecting: bool,
    /// The settings that were saved last, those that were there when last looked at, and when
    /// they changed.
    persisted: Config,
    seen: Config,
    dirty_since: Option<u64>,
}

/// The state of an [`App`].
pub struct AppView {
    pub devices: Seq<DeviceView>,
    pub selected: Option<Seq<char>>,
    pub displays: Seq<DisplayInfo>,
    pub settings: Settings,
    pub view: ViewParams,
    pub stream: Option<ServerOptions>,
    pub flat: Option<FlatConfig>,
    pub texture: bool,
    pub last_generation: u64,
    pub message: Option<Seq<char>>,
    pub want_autostart: bool,
    pub need_display_fetch: bool,
    pub fetch_inflight: bool,
    pub remotes: Seq<Seq<char>>,
    pub connecting: bool,
    pub persisted: ConfigView,
    pub seen: ConfigView,
    pub dirty_since: Option<u64>,
}

impl View for App {
    type V = AppView;

    closed spec fn view(&self) -> AppView {
        AppView {
            devices: adb::device_views(self.devices@),
            selected: text::opt_view(self.selected),
            displays: self.displays@,
            settings: self.settings,
            view: self.view,
            stream: self.stream,
            flat: self.flat,
            texture: self.texture,
            last_generation: self.last_generation,
            message: text::opt_view(self.message),
            want_autostart: self.want_autostart,
            need_display_fetch: self.need_display_fetch,
            fetch_inflight: self.fetch_inflight,
            remotes: text::views(self.remotes@),
            connecting: self.connecting,
            persisted: self.persisted@,
            seen: self.seen@,
            dirty_since: self.dirty_since,
        }
    }
}

/// A value, or the one that replaces it.
pub open spec fn overridden<T>(old: T, new: Option<T>) -> T {
    match new {
        Some(v) => v,
        None => old,
    }
}

/// The device with this serial, if there is one: the first.
pub open spec fn find_device(ds: Seq<DeviceView>, serial: Seq<char>) -> Option<DeviceView>
    decreases ds.len(),
{
    if ds.len() == 0 {
        None
    } else if ds[0].serial == serial {
        Some(ds[0])
    } else {
        find_device(ds.drop_first(), serial)
    }
}

/// The display with this id, if there is one: the first.
pub open spec fn find_display(list: Seq<DisplayInfo>, id: u32) -> Option<DisplayInfo>
    decreases list.len(),
{
    if list.len() == 0 {
        None
    } else if list[0].id == id {
        Some(list[0])
    } else {
        find_display(list.drop_first(), id)
    }
}

/// Whether one of the devices has this serial and adb can talk to it.
pub open spec fn has_online(ds: Seq<DeviceView>, serial: Seq<char>) -> bool {
    exists|i: int| 0 <= i < ds.len() && (#[trigger] ds[i]).serial == serial && ds[i].online()
}

/// Whether a model, in lower case, is that of a Quest.
pub open spec fn is_quest(low: Seq<char>) -> bool {
    ||| text::occurs(low, "quest"@)
    ||| text::occurs(low, "oculus"@)
    ||| text::occurs(low, "eureka"@)
    ||| text::occurs(low, "meta"@)
}

/// Whether a model, in lower case, is that of a Quest.
pub fn quest_model(low: &str) -> (r: bool)
    ensures
        r == is_quest(low@),
{
    text::contains(low, "quest") || text::contains(low, "oculus") || text::contains(low, "eureka")
        || text::contains(low, "meta")
}

impl AppView {
    /// The settings as they are saved.
    pub open spec fn config(self) -> ConfigView {
        ConfigView {
            lens_correct: self.view.lens_correct,
            lens_k1: self.view.lens_k1,
            lens_k2: self.view.lens_k2,
            rotation_deg: self.view.rotation_deg,
            uv: self.view.uv,
            display_id: self.settings.display_id,
            max_size: self.settings.max_size,
            bitrate_mbps: self.settings.bitrate_mbps,
            max_fps: self.settings.max_fps,
            audio: self.settings.audio,
            remotes: self.remotes,
        }
    }

    /// The window before adb was asked for devices: the saved settings, with what the command
    /// line asks for in their place.
    pub open spec fn start(startup: StartupConfig, c: ConfigView) -> AppView {
        let settings = Settings {
            display_id: overridden(c.display_id, startup.display_id),
            max_size: overridden(c.max_size, startup.max_size),
            bitrate_mbps: overridden(c.bitrate_mbps, startup.bitrate_mbps),
            max_fps: overridden(c.max_fps, startup.max_fps),
            audio: overridden(c.audio, startup.audio),
        };
        let now = ConfigView {
            display_id: settings.display_id,
            max_size: settings.max_size,
            bitrate_mbps: settings.bitrate_mbps,
            max_fps: settings.max_fps,
            audio: settings.audio,
            ..c
        };
        AppView {
            devices: seq![],
            selected: None,
            displays: seq![],
            settings,
            view: ViewParams {
                uv: c.uv,
                lens_correct: c.lens_correct,
                lens_k1: c.lens_k1,
                lens_k2: c.lens_k2,
                rotation_deg: c.rotation_deg,
            },
            stream: None,
            flat: None,
            texture: false,
            last_generation: 0,
            message: None,
            want_autostart: startup.autostart,
            need_display_fetch: false,
            fetch_inflight: false,
            remotes: c.remotes,
            connecting: false,
            persisted: now,
            seen: now,
            dirty_since: None,
        }
    }

    /// The displays are asked for.
    pub open spec fn asking_displays(self) -> AppView {
        AppView { displays: seq![], need_display_fetch: true, ..self }
    }

    /// The device is chosen, and its displays are asked for.
    pub open spec fn selecting(self, serial: Option<Seq<char>>) -> AppView {
        (AppView { selected: serial, ..self }).asking_displays()
    }

    /// Whether the chosen device is one of these and adb can talk to it.
    pub open spec fn still_there(self, ds: Seq<DeviceView>) -> bool {
        self.selected matches Some(s) && has_online(ds, s)
    }

    /// The devices were listed anew. The choice is kept while adb can talk to the device; else the
    /// preferred device is chosen.
    pub open spec fn with_devices(self, ds: Seq<DeviceView>) -> AppView {
        let listed = AppView { devices: ds, ..self };
        if self.still_there(ds) {
            listed
        } else {
            listed.selecting(
                match adb::preferred(ds) {
                    Some(d) => Some(d.serial),
                    None => None,
                },
            )
        }
    }

    /// The window once adb was asked for devices: a device that the command line names is chosen
    /// if it is there.
    pub open spec fn opened(
        startup: StartupConfig,
        c: ConfigView,
        ds: Seq<DeviceView>,
    ) -> AppView {
        let s = AppView::start(startup, c).with_devices(ds);
        match startup.serial {
            Some(serial) => if find_device(ds, serial@) is Some {
                s.selecting(Some(serial@))
            } else {
                s
            },
            None => s,
        }
    }

    /// The chosen device, if it is listed.
    pub open spec fn device(self) -> Option<DeviceView> {
        match self.selected {
            Some(s) => find_device(self.devices, s),
            None => None,
        }
    }

    /// Whether the bit rate fits into 32 bits.
    pub open spec fn bitrate_fits(self) -> bool {
        self.settings.bitrate_mbps * 1_000_000 <= u32::MAX
    }

    /// What the panel is mirrored with.
    pub open spec fn panel_options(self) -> ServerOptions {
        ServerOptions {
            display_id: self.settings.display_id,
            max_size: self.settings.max_size,
            video_bit_rate: (self.settings.bitrate_mbps * 1_000_000) as u32,
            max_fps: self.settings.max_fps,
            audio: self.settings.audio,
            audio_bit_rate: AUDIO_BIT_RATE,
        }
    }

    /// What the flat view is shown with: sizes below 640 are too small for it, and its bit rate is
    /// at least 2 megabits per second.
    pub open spec fn flat_options(self) -> FlatConfig {
        FlatConfig {
            max_size: if self.settings.max_size >= 640 {
                self.settings.max_size
            } else {
                1920
            },
            bitrate: if self.settings.bitrate_mbps < 2 {
                2_000_000
            } else {
                (self.settings.bitrate_mbps * 1_000_000) as u32
            },
            fps: if self.settings.max_fps > 0 {
                self.settings.max_fps
            } else {
                72
            },
            audio: self.settings.audio,
        }
    }

    /// The panel of the chosen device is mirrored, in place of any that was before.
    pub open spec fn panel_connected(self) -> AppView {
        if self.selected is Some {
            AppView {
                stream: Some(self.panel_options()),
                texture: false,
                last_generation: 0,
                ..self
            }
        } else {
            self
        }
    }

    /// The flat view of the chosen device is shown, in place of anything that was before. It is
    /// whole, level and undistorted as it is.
    pub open spec fn flat_connected(self) -> AppView {
        if self.selected is Some {
            AppView {
                stream: None,
                flat: Some(self.flat_options()),
                texture: false,
                last_generation: 0,
                view: ViewParams {
                    uv: CropPreset::FullPanel.corners(),
                    lens_correct: false,
                    rotation_deg: config::ZERO,
                    ..self.view
                },
                ..self
            }
        } else {
            self
        }
    }

    /// Nothing is shown.
    pub open spec fn disconnected(self) -> AppView {
        AppView { stream: None, flat: None, texture: false, ..self }
    }

    /// Whether something is shown.
    pub open spec fn active(self) -> bool {
        self.stream is Some || self.flat is Some
    }

    /// Whether what is shown was connected with the settings as they are.
    pub open spec fn up_to_date(self) -> bool {
        match (self.flat, self.stream) {
            (Some(f), _) => f == self.flat_options(),
            (None, Some(s)) => s.display_id == self.settings.display_id && s.max_size
                == self.settings.max_size && s.video_bit_rate == self.settings.bitrate_mbps
                * 1_000_000 && s.max_fps == self.settings.max_fps && s.audio
                == self.settings.audio,
            (None, None) => false,
        }
    }

    /// Whether the displays are asked for now, where `safe` tells whether they can be.
    pub open spec fn asks_displays(self, safe: bool) -> bool {
        self.need_display_fetch && !self.fetch_inflight && safe
    }

    /// The displays were asked for, if they could be.
    pub open spec fn after_asking(self, safe: bool) -> AppView {
        if self.asks_displays(safe) {
            AppView { need_display_fetch: false, fetch_inflight: self.selected is Some, ..self }
        } else {
            self
        }
    }

    /// The displays came in.
    pub open spec fn with_displays(self, found: Seq<DisplayInfo>) -> AppView {
        let list = displays::largest_first(displays::genuine_ones(found));
        AppView {
            fetch_inflight: false,
            displays: list,
            settings: Settings {
                display_id: displays::choice_among(list, self.settings.display_id),
                ..self.settings
            },
            ..self
        }
    }

    /// The displays could not be had.
    pub open spec fn without_displays(self) -> AppView {
        AppView { fetch_inflight: false, displays: seq![], ..self }
    }

    /// A message is shown.
    pub open spec fn saying(self, message: Seq<char>) -> AppView {
        AppView { message: Some(message), ..self }
    }

    /// An address is remembered, once.
    pub open spec fn remembering(self, addr: Seq<char>) -> AppView {
        if self.remotes.contains(addr) {
            self
        } else {
            AppView { remotes: self.remotes.push(addr), ..self }
        }
    }

    /// An attempt to connect over the network came to a good end, with this reply. The address is
    /// remembered, and its device is chosen if adb can talk to it.
    pub open spec fn remote_connected(
        self,
        addr: Option<Seq<char>>,
        reply: Seq<char>,
        ds: Seq<DeviceView>,
    ) -> AppView {
        let said = (AppView { connecting: false, ..self }).saying("🔗 "@ + reply);
        match addr {
            Some(a) => {
                let s = said.remembering(a).with_devices(ds);
                if has_online(ds, a) {
                    s.selecting(Some(a))
                } else {
                    s
                }
            },
            None => said.with_devices(ds),
        }
    }

    /// Since when the settings have been as they are, where they are to be saved.
    pub open spec fn changed_at(self, now: u64) -> Option<u64> {
        if self.dirty_since is None && self.config().equals(self.persisted) {
            None
        } else if self.dirty_since is None || self.config() != self.seen {
            Some(now)
        } else {
            self.dirty_since
        }
    }

    /// Whether the settings are to be saved.
    pub open spec fn save_due(self, now: u64) -> bool {
        self.changed_at(now) matches Some(t) && now - t >= QUIET_MILLIS
    }

    /// The settings were looked at, and saved if that was due.
    pub open spec fn after_autosave(self, now: u64) -> AppView {
        if self.save_due(now) {
            AppView {
                persisted: self.config(),
                seen: self.config(),
                dirty_since: None,
                ..self
            }
        } else {
            AppView { seen: self.config(), dirty_since: self.changed_at(now), ..self }
        }
    }

    /// Whether to connect without being asked.
    pub open spec fn autostarts(self) -> bool {
        self.want_autostart && self.selected is Some && self.stream is None
    }
}

/// What became of a screenshot, in words.
pub open spec fn screenshot_words(result: Option<Result<Seq<char>, Seq<char>>>) -> Seq<char> {
    match result {
        None => "No frame to capture yet."@,
        Some(Ok(path)) => "📷 Saved "@ + path,
        Some(Err(e)) => "Screenshot failed: "@ + e,
    }
}

/// Where a recording goes, or why there is none, in words.
pub open spec fn recording_words(result: Result<Seq<char>, Seq<char>>) -> Seq<char> {
    match result {
        Ok(path) => "⏺ Recording to "@ + path,
        Err(e) => "Record failed: "@ + e,
    }
}

/// The index of the device with this serial: the first.
fn index_of(devices: &Vec<Device>, serial: &str) -> (r: Option<usize>)
    ensures
        match r {
            Some(i) => i < devices@.len() && find_device(adb::device_views(devices@), serial@)
                == Some(devices@[i as int]@),
            None => find_device(adb::device_views(devices@), serial@) is None,
        },
{
    let ghost all = adb::device_views(devices@);
    let mut i: usize = 0;
    assert(all.skip(0) =~= all);
    while i < devices.len()
        invariant
            all == adb::device_views(devices@),
            i <= devices@.len(),
            find_device(all.skip(i as int), serial@) == find_device(all, serial@),
        decreases devices@.len() - i,
    {
        proof {
            assert(all.skip(i as int)[0] == devices@[i as int]@);
            assert(all.skip(i as int).drop_first() =~= all.skip(i + 1));
        }
        if text::same(devices[i].serial.as_str(), serial) {
            return Some(i);
        }
        i = i + 1;
    }
    None
}

/// Whether one of the devices has this serial and adb can talk to it.
fn any_online(devices: &Vec<Device>, serial: &str) -> (r: bool)
    ensures
        r == has_online(adb::device_views(devices@), serial@),
{
    let ghost all = adb::device_views(devices@);
    let mut i: usize = 0;
    while i < devices.len()
        invariant
            all == adb::device_views(devices@),
            i <= devices@.len(),
            forall|j: int|
                0 <= j < i ==> !((#[trigger] all[j]).serial == serial@ && all[j].online()),
        decreases devices@.len() - i,
    {
        assert(all[i as int] == devices@[i as int]@);
        if text::same(devices[i].serial.as_str(), serial) && devices[i].is_online() {
            return true;
        }
        i = i + 1;
    }
    false
}

/// A text with something in front of it.
fn prefixed(prefix: &str, s: &str) -> (r: String)
    ensures
        r@ == prefix@ + s@,
{
    let mut out = prefix.to_string();
    out.append(s);
    out
}

impl App {
    /// The window as it opens, from the command line, the saved settings if there are any, and
    /// the devices that adb lists.
    pub fn new(startup: StartupConfig, saved: Option<Config>, devices: Vec<Device>) -> (r: App)
        ensures
            r@ == AppView::opened(
                startup,
                match saved {
                    Some(c) => c@,
                    None => ConfigView::default_view(),
                },
                adb::device_views(devices@),
            ),
    {
        let ghost ds = adb::device_views(devices@);
        let cfg: Config = match saved {
            Some(c) => c,
            None => Config::default(),
        };
        let ghost c = cfg@;
        let mut settings = Settings {
            display_id: cfg.display_id,
            max_size: cfg.max_size,
            bitrate_mbps: cfg.bitrate_mbps,
            max_fps: cfg.max_fps,
            audio: cfg.audio,
        };
        if let Some(v) = startup.display_id {
            settings.display_id = v;
        }
        if let Some(v) = startup.max_size {
            settings.max_size = v;
        }
        if let Some(v) = startup.bitrate_mbps {
            settings.bitrate_mbps = v;
        }
        if let Some(v) = startup.max_fps {
            settings.max_fps = v;
        }
        if let Some(v) = startup.audio {
            settings.audio = v;
        }
        let view = ViewParams {
            uv: cfg.uv,
            lens_correct: cfg.lens_correct,
            lens_k1: cfg.lens_k1,
            lens_k2: cfg.lens_k2,
            rotation_deg: cfg.rotation_deg,
        };
        let remotes = text::copy_list(&cfg.remotes);
        let mut app = App {
            devices: Vec::new(),
            selected: None,
            displays: Vec::new(),
            settings,
            view,
            stream: None,
            flat: None,
            texture: false,
            last_generation: 0,
            message: None,
            want_autostart: startup.autostart,
            need_display_fetch: false,
            fetch_inflight: false,
            remotes,
            connecting: false,
            persisted: cfg.clone(),
            seen: cfg,
            dirty_since: None,
        };
        let now = app.current_config();
        app.seen = now.clone();
        app.persisted = now;
        assert(app@.devices =~= seq![]);
        assert(app@.displays =~= seq![]);
        assert(app@ == AppView::start(startup, c));
        app.refresh_devices(devices);
        if let Some(serial) = startup.serial {
            if index_of(&app.devices, serial.as_str()).is_some() {
                app.selected = Some(serial);
                app.request_display_fetch();
            }
        }
        app
    }

    /// Takes the devices that adb lists now.
    pub fn refresh_devices(&mut self, devices: Vec<Device>)
        ensures
            final(self)@ == old(self)@.with_devices(adb::device_views(devices@)),
    {
        self.devices = devices;
        let still_there = match &self.selected {
            Some(s) => any_online(&self.devices, s.as_str()),
            None => false,
        };
        if !still_there {
            self.selected = match adb::preferred_device(&self.devices) {
                Some(i) => Some(self.devices[i].serial.clone()),
                None => None,
            };
            self.request_display_fetch();
        }
    }

    /// Asks for the displays of the chosen device, as soon as that is safe.
    pub fn request_display_fetch(&mut self)
        ensures
            final(self)@ == old(self)@.asking_displays(),
    {
        self.displays = Vec::new();
        self.need_display_fetch = true;
        assert(self@.displays =~= seq![]);
    }

    /// Gives the serial of the device to ask for its displays, if that is to be done now, where
    /// `safe` tells whether it can be.
    pub fn drive_display_fetch(&mut self, safe: bool) -> (r: Option<String>)
        ensures
            text::opt_view(r) == if old(self)@.asks_displays(safe) {
                old(self)@.selected
            } else {
                None
            },
            final(self)@ == old(self)@.after_asking(safe),
    {
        if !self.need_display_fetch || self.fetch_inflight || !safe {
            return None;
        }
        self.need_display_fetch = false;
        match &self.selected {
            Some(s) => {
                let serial = s.clone();
                self.fetch_inflight = true;
                Some(serial)
            },
            None => None,
        }
    }

    /// Takes the displays that were asked for, if they could be had.
    pub fn on_displays(&mut self, found: Option<Vec<DisplayInfo>>)
        ensures
            final(self)@ == match found {
                Some(list) => old(self)@.with_displays(list@),
                None => old(self)@.without_displays(),
            },
    {
        self.fetch_inflight = false;
        match found {
            Some(list) => {
                let list = displays::choices(&list);
                self.settings.display_id = displays::choose_display(
                    &list,
                    self.settings.display_id,
                );
                self.displays = list;
            },
            None => {
                self.displays = Vec::new();
                assert(self@.displays =~= seq![]);
            },
        }
    }

    /// Whether the bit rate fits into 32 bits.
    pub fn bitrate_fits(&self) -> (r: bool)
        ensures
            r == self@.bitrate_fits(),
    {
        self.settings.bitrate_mbps as u64 * 1_000_000 <= u32::MAX as u64
    }

    /// Mirrors the panel of the chosen device. Gives what to start, if a device is chosen; the
    /// session before it ends, and so does the picture.
    pub fn connect(&mut self) -> (r: Option<StreamConfig>)
        requires
            old(self)@.bitrate_fits(),
        ensures
            match r {
                Some(c) => old(self)@.selected == Some(c.serial@) && ({
                    let o = old(self)@.panel_options();
                    c.display_id == o.display_id && c.max_size == o.max_size && c.video_bit_rate
                        == o.video_bit_rate && c.max_fps == o.max_fps && c.audio == o.audio
                        && c.audio_bit_rate == o.audio_bit_rate
                }) && c.options() == old(self)@.panel_options(),
                None => old(self)@.selected is None,
            },
            final(self)@ == old(self)@.panel_connected(),
    {
        let serial = match &self.selected {
            Some(s) => s.clone(),
            None => {
                return None;
            },
        };
        let o = ServerOptions {
            display_id: self.settings.display_id,
            max_size: self.settings.max_size,
            video_bit_rate: self.settings.bitrate_mbps * 1_000_000,
            max_fps: self.settings.max_fps,
            audio: self.settings.audio,
            audio_bit_rate: AUDIO_BIT_RATE,
        };
        self.stream = Some(o);
        self.texture = false;
        self.last_generation = 0;
        Some(
            StreamConfig {
                serial,
                display_id: o.display_id,
                max_size: o.max_size,
                video_bit_rate: o.video_bit_rate,
                max_fps: o.max_fps,
                audio: o.audio,
                audio_bit_rate: o.audio_bit_rate,
            },
        )
    }

    /// Ends whatever is shown.
    pub fn disconnect(&mut self)
        ensures
            final(self)@ == old(self)@.disconnected(),
    {
        self.stream = None;
        self.flat = None;
        self.texture = false;
    }

    /// What the flat view is shown with.
    pub fn flat_config(&self) -> (r: FlatConfig)
        requires
            self@.bitrate_fits(),
        ensures
            r == self@.flat_options(),
    {
        FlatConfig {
            max_size: if self.settings.max_size >= 640 {
                self.settings.max_size
            } else {
                1920
            },
            bitrate: if self.settings.bitrate_mbps < 2 {
                2_000_000
            } else {
                self.settings.bitrate_mbps * 1_000_000
            },
            fps: if self.settings.max_fps > 0 {
                self.settings.max_fps
            } else {
                72
            },
            audio: self.settings.audio,
        }
    }

    /// Shows the flat view of the chosen device. Gives what to start, if a device is chosen; the
    /// session before it ends, and so does the picture.
    pub fn connect_flat(&mut self) -> (r: Option<(String, FlatConfig)>)
        requires
            old(self)@.bitrate_fits(),
        ensures
            match r {
                Some((serial, c)) => old(self)@.selected == Some(serial@) && c == old(
                    self,
                )@.flat_options(),
                None => old(self)@.selected is None,
            },
            final(self)@ == old(self)@.flat_connected(),
    {
        let serial = match &self.selected {
            Some(s) => s.clone(),
            None => {
                return None;
            },
        };
        let c = self.flat_config();
        self.stream = None;
        self.flat = Some(c);
        self.texture = false;
        self.last_generation = 0;
        self.view.lens_correct = false;
        self.view.rotation_deg = config::ZERO;
        self.view.uv = CropPreset::FullPanel.crop();
        Some((serial, c))
    }

    /// Applies the tuned view of a Quest 3: the left eye, the lens undone, the tilt taken out.
    pub fn apply_quest3_preset(&mut self)
        ensures
            final(self)@ == old(self)@.tuned(),
            final(self)@ == (AppView {
                view: ViewParams {
                    uv: CropPreset::LeftEye.corners(),
                    lens_correct: true,
                    lens_k1: config::QUEST3_K1,
                    lens_k2: config::QUEST3_K2,
                    rotation_deg: config::QUEST3_TILT,
                },
                ..old(self)@
            }),
    {
        self.view = ViewParams {
            uv: CropPreset::LeftEye.crop(),
            lens_correct: true,
            lens_k1: config::QUEST3_K1,
            lens_k2: config::QUEST3_K2,
            rotation_deg: config::QUEST3_TILT,
        };
    }

    /// Takes the lens coefficients and the tilt back to those of a Quest 3.
    pub fn reset_lens(&mut self)
        ensures
            final(self)@ == old(self)@.lens_reset(),
            final(self)@ == (AppView {
                view: ViewParams {
                    lens_k1: config::QUEST3_K1,
                    lens_k2: config::QUEST3_K2,
                    rotation_deg: config::QUEST3_TILT,
                    ..old(self)@.view
                },
                ..old(self)@
            }),
    {
        self.view.lens_k1 = config::QUEST3_K1;
        self.view.lens_k2 = config::QUEST3_K2;
        self.view.rotation_deg = config::QUEST3_TILT;
    }

    /// The settings as they are saved.
    pub fn current_config(&self) -> (r: Config)
        ensures
            r@ == self@.config(),
    {
        Config {
            lens_correct: self.view.lens_correct,
            lens_k1: self.view.lens_k1,
            lens_k2: self.view.lens_k2,
            rotation_deg: self.view.rotation_deg,
            uv: self.view.uv,
            display_id: self.settings.display_id,
            max_size: self.settings.max_size,
            bitrate_mbps: self.settings.bitrate_mbps,
            max_fps: self.settings.max_fps,
            audio: self.settings.audio,
            remotes: text::copy_list(&self.remotes),
        }
    }

    /// Begins to connect over the network. Gives the address to connect to, unless such an
    /// attempt is under way.
    pub fn start_remote_connect(&mut self, addr: &str) -> (r: Option<String>)
        ensures
            ({
                let a = adb::normalized(addr@);
                if old(self)@.connecting {
                    r is None && final(self)@ == old(self)@
                } else {
                    text::opt_view(r) == Some(a) && final(self)@ == (AppView {
                        connecting: true,
                        ..old(self)@
                    }).saying("🔗 Connecting to "@ + a + "…"@)
                }
            }),
            text::opt_view(r) == old(self)@.target_of(addr@),
            final(self)@ == old(self)@.connecting_to(addr@),
    {
        if self.connecting {
            return None;
        }
        let addr = adb::normalize_addr(addr);
        self.connecting = true;
        let mut message = prefixed("🔗 Connecting to ", addr.as_str());
        message.append("…");
        self.message = Some(message);
        Some(addr)
    }

    /// Begins to connect to every address that is remembered. Gives them, unless there is none or
    /// such an attempt is under way.
    pub fn start_connect_all(&mut self) -> (r: Option<Vec<String>>)
        ensures
            if old(self)@.connecting || old(self)@.remotes.len() == 0 {
                r is None && final(self)@ == old(self)@
            } else {
                r matches Some(list) && text::views(list@) == old(self)@.remotes && final(self)@
                    == (AppView { connecting: true, ..old(self)@ }).saying(
                    "🔗 Connecting saved devices…"@,
                )
            },
            match r {
                Some(list) => old(self)@.targets() == Some(text::views(list@)),
                None => old(self)@.targets() is None,
            },
            final(self)@ == old(self)@.connecting_all(),
    {
        if self.connecting || self.remotes.len() == 0 {
            return None;
        }
        self.connecting = true;
        self.message = Some("🔗 Connecting saved devices…".to_string());
        Some(text::copy_list(&self.remotes))
    }

    /// Takes the good end of an attempt to connect over the network, with adb's reply and the
    /// devices that it lists now.
    pub fn on_connected(&mut self, target: Target, reply: &str, devices: Vec<Device>)
        ensures
            final(self)@ == old(self)@.remote_connected(
                match target {
                    Target::One(addr) => Some(addr@),
                    Target::All => None,
                },
                reply@,
                adb::device_views(devices@),
            ),
    {
        self.connecting = false;
        self.message = Some(prefixed("🔗 ", reply));
        match target {
            Target::One(addr) => {
                if !text::any_same(&self.remotes, addr.as_str()) {
                    let ghost before = self.remotes@;
                    self.remotes.push(addr.clone());
                    assert(text::views(self.remotes@) =~= text::views(before).push(addr@));
                }
                self.refresh_devices(devices);
                if any_online(&self.devices, addr.as_str()) {
                    self.selected = Some(addr);
                    self.request_display_fetch();
                }
            },
            Target::All => {
                self.refresh_devices(devices);
            },
        }
    }

    /// Takes the bad end of an attempt to connect over the network.
    pub fn on_connect_failed(&mut self, error: &str)
        ensures
            final(self)@ == (AppView { connecting: false, ..old(self)@ }).saying(
                "Connect failed: "@ + error@,
            ),
            final(self)@ == old(self)@.connect_failed(error@),
    {
        self.connecting = false;
        self.message = Some(prefixed("Connect failed: ", error));
    }

    /// Forgets an address.
    pub fn forget(&mut self, addr: &str)
        ensures
            final(self)@ == old(self)@.forgetting(addr@),
            final(self)@ == (AppView {
                remotes: text::without(old(self)@.remotes, addr@),
                ..old(self)@
            }),
    {
        let rest = text::remove_all(&self.remotes, addr);
        self.remotes = rest;
    }

    /// Looks at the settings, `now` milliseconds after some moment. Gives them where they are to
    /// be saved: once they have stayed as they are for a while.
    pub fn autosave(&mut self, now: u64) -> (r: Option<Config>)
        ensures
            match r {
                Some(c) => old(self)@.save_due(now) && c@ == old(self)@.config(),
                None => !old(self)@.save_due(now),
            },
            final(self)@ == old(self)@.after_autosave(now),
    {
        let cur = self.current_config();
        let since: Option<u64> = if self.dirty_since.is_none() && cur.equals(&self.persisted) {
            None
        } else if self.dirty_since.is_none() || !cur.same(&self.seen) {
            Some(now)
        } else {
            self.dirty_since
        };
        self.seen = cur.clone();
        match since {
            Some(t) => {
                if now >= t && now - t >= QUIET_MILLIS {
                    self.persisted = cur.clone();
                    self.dirty_since = None;
                    return Some(cur);
                }
            },
            None => {},
        }
        self.dirty_since = since;
        None
    }

    /// Tells what became of a screenshot: there was no frame, it was saved, or it was not.
    pub fn on_screenshot(&mut self, result: Option<Result<&str, &str>>)
        ensures
            final(self)@ == old(self)@.saying(
                match result {
                    None => "No frame to capture yet."@,
                    Some(Ok(path)) => "📷 Saved "@ + path@,
                    Some(Err(e)) => "Screenshot failed: "@ + e@,
                },
            ),
            final(self)@ == old(self)@.saying(
                screenshot_words(
                    match result {
                        None => None,
                        Some(Ok(path)) => Some(Ok(path@)),
                        Some(Err(e)) => Some(Err(e@)),
                    },
                ),
            ),
    {
        self.message = Some(
            match result {
                None => "No frame to capture yet.".to_string(),
                Some(Ok(path)) => prefixed("📷 Saved ", path),
                Some(Err(e)) => prefixed("Screenshot failed: ", e),
            },
        );
    }

    /// What the record button does. `recording` tells whether a recording runs.
    pub fn toggle_recording(&self, recording: bool) -> (r: RecordToggle)
        ensures
            r == self@.record_button(recording),
            r == if !self@.active() {
                RecordToggle::Nothing
            } else if recording {
                RecordToggle::Stop
            } else if self@.flat is Some {
                RecordToggle::StartFlat
            } else {
                RecordToggle::StartPanel(self@.view)
            },
    {
        if self.stream.is_none() && self.flat.is_none() {
            RecordToggle::Nothing
        } else if recording {
            RecordToggle::Stop
        } else if self.flat.is_some() {
            RecordToggle::StartFlat
        } else {
            RecordToggle::StartPanel(self.view)
        }
    }

    /// Tells that a recording ended.
    pub fn on_recording_stopped(&mut self)
        ensures
            final(self)@ == old(self)@.saying("⏹ Recording saved."@),
    {
        self.message = Some("⏹ Recording saved.".to_string());
    }

    /// Tells where a recording goes, or why there is none.
    pub fn on_recording_started(&mut self, result: Result<&str, &str>)
        ensures
            final(self)@ == old(self)@.saying(
                match result {
                    Ok(path) => "⏺ Recording to "@ + path@,
                    Err(e) => "Record failed: "@ + e@,
                },
            ),
            final(self)@ == old(self)@.saying(
                recording_words(
                    match result {
                        Ok(path) => Ok(path@),
                        Err(e) => Err(e@),
                    },
                ),
            ),
    {
        self.message = Some(
            match result {
                Ok(path) => prefixed("⏺ Recording to ", path),
                Err(e) => prefixed("Record failed: ", e),
            },
        );
    }

    /// The index of the chosen device, if it is listed.
    pub fn selected_device(&self) -> (r: Option<usize>)
        ensures
            match r {
                Some(i) => i < self@.devices.len() && self@.device() == Some(
                    self@.devices[i as int],
                ),
                None => self@.device() is None,
            },
    {
        match &self.selected {
            Some(s) => index_of(&self.devices, s.as_str()),
            None => None,
        }
    }

    /// Whether the chosen device is a Quest.
    pub fn selected_is_quest(&self) -> (r: bool)
        ensures
            r == match self@.device() {
                Some(d) => is_quest(text::lowercase(d.model)),
                None => false,
            },
    {
        match self.selected_device() {
            Some(i) => {
                let low = text::to_lowercase(self.devices[i].model.as_str());
                quest_model(low.as_str())
            },
            None => false,
        }
    }

    /// Whether what is shown was connected with the settings as they are.
    pub fn active_config_matches(&self) -> (r: bool)
        requires
            self@.flat is Some ==> self@.bitrate_fits(),
        ensures
            r == self@.up_to_date(),
    {
        match self.flat {
            Some(f) => f == self.flat_config(),
            None => match self.stream {
                Some(s) => s.display_id == self.settings.display_id && s.max_size
                    == self.settings.max_size && s.video_bit_rate as u64
                    == self.settings.bitrate_mbps as u64 * 1_000_000 && s.max_fps
                    == self.settings.max_fps && s.audio == self.settings.audio,
                None => false,
            },
        }
    }

    /// Takes note that a frame of this generation is shown.
    pub fn on_frame_shown(&mut self, generation: u64)
        ensures
            final(self)@ == (AppView { texture: true, last_generation: generation, ..old(self)@ }),
    {
        self.texture = true;
        self.last_generation = generation;
    }

    /// Whether to connect without being asked. That happens once; the displays are asked for when
    /// the panel is there.
    pub fn autostart(&mut self) -> (r: bool)
        ensures
            r == old(self)@.autostarts(),
            final(self)@ == old(self)@.after_autostart(),
            final(self)@ == if old(self)@.autostarts() {
                (AppView { want_autostart: false, ..old(self)@ }).asking_displays()
            } else {
                old(self)@
            },
    {
        if self.want_autostart && self.selected.is_some() && self.stream.is_none() {
            self.want_autostart = false;
            self.request_display_fetch();
            true
        } else {
            false
        }
    }
}

/// The size caps to choose from; 0 is none.
pub fn size_options() -> (r: Vec<u32>)
    ensures
        r@ == seq![0u32, 1280, 1600, 1920, 2560, 3840],
{
    vec![0, 1280, 1600, 1920, 2560, 3840]
}

/// The frame rate caps to choose from; 0 is none.
pub fn fps_options() -> (r: Vec<u32>)
    ensures
        r@ == seq![0u32, 30, 60, 72, 90, 120],
{
    vec![0, 30, 60, 72, 90, 120]
}

/// A size cap in words.
pub open spec fn size_words(max_size: u32) -> Seq<char> {
    if max_size == 0 {
        "Full panel"@
    } else {
        text::decimal(max_size as nat) + "px"@
    }
}

/// A frame rate cap in words.
pub open spec fn fps_words(max_fps: u32) -> Seq<char> {
    if max_fps == 0 {
        "Max"@
    } else {
        text::decimal(max_fps as nat)
    }
}

/// What connecting to all addresses came to, in words.
pub open spec fn tally(ok: nat, all: nat) -> Seq<char> {
    "connected "@ + text::decimal(ok) + "/"@ + text::decimal(all)
}

/// The file name of a capture.
pub open spec fn capture_name(prefix: Seq<char>, ext: Seq<char>, seconds: nat) -> Seq<char> {
    prefix + "_"@ + text::decimal(seconds) + "."@ + ext
}

/// What a typed address comes to: nothing, where it is blank.
pub open spec fn address_in(input: Seq<char>) -> Option<Seq<char>> {
    if text::trimmed(input).len() > 0 {
        Some(text::trimmed(input))
    } else {
        None
    }
}

/// A cap is read back from its words, and only the lack of one is told without a number.
pub proof fn law_caps_are_told_in_numbers(cap: u32)
    ensures
        cap == 0 <==> size_words(cap) == "Full panel"@,
        cap == 0 <==> fps_words(cap) == "Max"@,
        cap > 0 ==> text::number(fps_words(cap)) == Some(cap),
        cap > 0 ==> (text::split_once(size_words(cap), 'p') matches Some((n, unit))
            && text::number(n) == Some(cap) && unit == seq!['x']),
{
    let n = text::decimal(cap as nat);
    reveal_strlit("Full panel");
    reveal_strlit("Max");
    reveal_strlit("px");
    text::lemma_decimal(cap as nat);
    text::law_decimal_is_read_back(cap);
    text::lemma_decimal_has_no(cap as nat, 'p');
    assert(n + "px"@ =~= n + seq!['p'] + seq!['x']);
    text::lemma_split_once(n, 'p', seq!['x']);
    assert(text::is_digit(n[0]));
    assert((n + "px"@)[0] == n[0]);
    assert("Full panel"@[0] == 'F' && "Max"@[0] == 'M');
}

/// How many of how many addresses could be connected to is read back.
pub proof fn law_tally_is_read_back(ok: u32, all: u32)
    ensures
        text::split_once(tally(ok as nat, all as nat).skip(10), '/') matches Some((a, b))
            && text::number(a) == Some(ok) && text::number(b) == Some(all),
{
    let (a, b) = (text::decimal(ok as nat), text::decimal(all as nat));
    reveal_strlit("connected ");
    reveal_strlit("/");
    assert(tally(ok as nat, all as nat).skip(10) =~= a + seq!['/'] + b);
    text::lemma_decimal_has_no(ok as nat, '/');
    text::lemma_split_once(a, '/', b);
    text::law_decimal_is_read_back(ok);
    text::law_decimal_is_read_back(all);
}

/// A capture is named by what it is, by its time and by its kind, and each is read back; so two
/// captures of different seconds do not share a name.
pub proof fn law_capture_name_tells_its_time(prefix: Seq<char>, ext: Seq<char>, seconds: u32)
    requires
        !prefix.contains('_'),
    ensures
        text::split_once(capture_name(prefix, ext, seconds as nat), '_') matches Some((p, rest)) && p
            == prefix && (text::split_once(rest, '.') matches Some((n, e)) && text::number(n)
            == Some(seconds) && e == ext),
{
    let n = text::decimal(seconds as nat);
    reveal_strlit("_");
    reveal_strlit(".");
    assert(capture_name(prefix, ext, seconds as nat) =~= prefix + seq!['_'] + (n + seq!['.'] + ext));
    text::lemma_split_once(prefix, '_', n + seq!['.'] + ext);
    text::lemma_decimal_has_no(seconds as nat, '.');
    text::lemma_split_once(n, '.', ext);
    text::law_decimal_is_read_back(seconds);
}

/// What was typed is an address without the white space around it, and white space alone is none.
pub proof fn law_typed_address_is_trimmed(before: Seq<char>, addr: Seq<char>, behind: Seq<char>)
    requires
        text::is_blank(before),
        text::is_blank(behind),
        addr.len() > 0,
        text::is_trimmed(addr),
    ensures
        address_in(before + addr + behind) == Some(addr),
        address_in(before) is None,
{
    text::lemma_trim_padding(before, addr, behind);
    text::lemma_trim_blank(before);
}

/// A size cap in words.
pub fn size_label(max_size: u32) -> (r: String)
    ensures
        r@ == size_words(max_size),
        r@ == if max_size == 0 {
            "Full panel"@
        } else {
            text::decimal(max_size as nat) + "px"@
        },
{
    if max_size == 0 {
        "Full panel".to_string()
    } else {
        let mut s = text::dec(max_size as u64);
        s.append("px");
        s
    }
}

/// A frame rate cap in words.
pub fn fps_label(max_fps: u32) -> (r: String)
    ensures
        r@ == fps_words(max_fps),
        r@ == if max_fps == 0 {
            "Max"@
        } else {
            text::decimal(max_fps as nat)
        },
{
    if max_fps == 0 {
        "Max".to_string()
    } else {
        text::dec(max_fps as u64)
    }
}

/// What a typed address comes to: nothing, where it is blank.
pub fn typed_address(input: &str) -> (r: Option<String>)
    ensures
        text::opt_view(r) == address_in(input@),
        text::opt_view(r) == if text::trimmed(input@).len() > 0 {
            Some(text::trimmed(input@))
        } else {
            None
        },
{
    let a = text::trim(input);
    if a.is_empty() {
        None
    } else {
        Some(a.to_string())
    }
}

/// What connecting to all addresses came to, in words.
pub fn connect_all_reply(ok: usize, all: usize) -> (r: String)
    ensures
        r@ == tally(ok as nat, all as nat),
        r@ == "connected "@ + text::decimal(ok as nat) + "/"@ + text::decimal(all as nat),
{
    let mut s = "connected ".to_string();
    s.append(text::dec(ok as u64).as_str());
    s.append("/");
    s.append(text::dec(all as u64).as_str());
    s
}

/// The file name of a capture, such as `clip_1718000000.mp4`.
pub fn capture_path(prefix: &str, ext: &str, seconds: u64) -> (r: String)
    ensures
        r@ == capture_name(prefix@, ext@, seconds as nat),
        r@ == prefix@ + "_"@ + text::decimal(seconds as nat) + "."@ + ext@,
{
    let mut s = prefix.to_string();
    s.append("_");
    s.append(text::dec(seconds).as_str());
    s.append(".");
    s.append(ext);
    s
}

/// The label of the record button.
pub fn record_label(recording: bool) -> (r: &'static str)
    ensures
        r@ == if recording {
            "⏹ Stop"@
        } else {
            "⏺ Record"@
        },
{
    if recording {
        "⏹ Stop"
    } else {
        "⏺ Record"
    }
}

/// What the connect button says of itself.
pub fn connect_hint(quest: bool) -> (r: &'static str)
    ensures
        r@ == if quest {
            "Live flat view (default for Meta/Quest): whole undistorted view, unrooted"@
        } else {
            "Mirror this device"@
        },
{
    if quest {
        "Live flat view (default for Meta/Quest): whole undistorted view, unrooted"
    } else {
        "Mirror this device"
    }
}

impl AppView {
    /// The tuned view of a Quest 3.
    pub open spec fn tuned(self) -> AppView {
        AppView {
            view: ViewParams {
                uv: CropPreset::LeftEye.corners(),
                lens_correct: true,
                lens_k1: config::QUEST3_K1,
                lens_k2: config::QUEST3_K2,
                rotation_deg: config::QUEST3_TILT,
            },
            ..self
        }
    }

    /// The lens coefficients and the tilt are those of a Quest 3.
    pub open spec fn lens_reset(self) -> AppView {
        AppView {
            view: ViewParams {
                lens_k1: config::QUEST3_K1,
                lens_k2: config::QUEST3_K2,
                rotation_deg: config::QUEST3_TILT,
                ..self.view
            },
            ..self
        }
    }

    /// The crop is one of those that have a button.
    pub open spec fn showing(self, preset: CropPreset) -> AppView {
        AppView { view: ViewParams { uv: preset.corners(), ..self.view }, ..self }
    }

    /// An address is forgotten.
    pub open spec fn forgetting(self, addr: Seq<char>) -> AppView {
        AppView { remotes: text::without(self.remotes, addr), ..self }
    }

    /// What the record button does.
    pub open spec fn record_button(self, recording: bool) -> RecordToggle {
        if !self.active() {
            RecordToggle::Nothing
        } else if recording {
            RecordToggle::Stop
        } else if self.flat is Some {
            RecordToggle::StartFlat
        } else {
            RecordToggle::StartPanel(self.view)
        }
    }

    /// What the connect button shows.
    pub open spec fn connects_to(self) -> Source {
        if self.quest() {
            Source::Flat
        } else {
            Source::Panel
        }
    }

    /// What connecting anew shows, where that is offered.
    pub open spec fn offers(self) -> Option<Source> {
        if self.up_to_date() {
            None
        } else {
            self.shown()
        }
    }

    /// Whether the tools for crop, lens and tilt are shown.
    pub open spec fn has_tools(self) -> bool {
        self.flat is None && (self.stream is Some || !self.quest())
    }

    /// The address to connect to, unless an attempt is under way.
    pub open spec fn target_of(self, addr: Seq<char>) -> Option<Seq<char>> {
        if self.connecting {
            None
        } else {
            Some(adb::normalized(addr))
        }
    }

    /// An attempt to connect begins, unless one is under way.
    pub open spec fn connecting_to(self, addr: Seq<char>) -> AppView {
        match self.target_of(addr) {
            Some(a) => (AppView { connecting: true, ..self }).saying(
                "🔗 Connecting to "@ + a + "…"@,
            ),
            None => self,
        }
    }

    /// The addresses to connect to when all are, unless there is none or an attempt is under way.
    pub open spec fn targets(self) -> Option<Seq<Seq<char>>> {
        if self.connecting || self.remotes.len() == 0 {
            None
        } else {
            Some(self.remotes)
        }
    }

    /// An attempt to connect to all addresses begins, if it can.
    pub open spec fn connecting_all(self) -> AppView {
        if self.targets() is Some {
            (AppView { connecting: true, ..self }).saying("🔗 Connecting saved devices…"@)
        } else {
            self
        }
    }

    /// An attempt to connect came to a bad end.
    pub open spec fn connect_failed(self, error: Seq<char>) -> AppView {
        (AppView { connecting: false, ..self }).saying("Connect failed: "@ + error)
    }

    /// The window connected without being asked, if it was to.
    pub open spec fn after_autostart(self) -> AppView {
        if self.autostarts() {
            (AppView { want_autostart: false, ..self }).asking_displays()
        } else {
            self
        }
    }

    /// Whether the chosen device is a Quest.
    pub open spec fn quest(self) -> bool {
        match self.device() {
            Some(d) => is_quest(text::lowercase(d.model)),
            None => false,
        }
    }

    /// What is shown, if anything: the flat view before the panel.
    pub open spec fn shown(self) -> Option<Source> {
        if self.flat is Some {
            Some(Source::Flat)
        } else if self.stream is Some {
            Some(Source::Panel)
        } else {
            None
        }
    }
}

impl App {
    /// The label of the chosen device.
    pub fn device_label(&self) -> (r: String)
        ensures
            r@ == match self@.device() {
                Some(d) => d.labelled(),
                None => "No device"@,
            },
    {
        match self.selected_device() {
            Some(i) => self.devices[i].label(),
            None => "No device".to_string(),
        }
    }

    /// The devices that adb lists.
    pub fn devices(&self) -> (r: &Vec<Device>)
        ensures
            adb::device_views(r@) == self@.devices,
    {
        &self.devices
    }

    /// Whether the device is the chosen one.
    pub fn is_selected(&self, serial: &str) -> (r: bool)
        ensures
            r == (self@.selected == Some(serial@)),
    {
        match &self.selected {
            Some(s) => text::same(s.as_str(), serial),
            None => false,
        }
    }

    /// Whether a device is chosen.
    pub fn has_selection(&self) -> (r: bool)
        ensures
            r == (self@.selected is Some),
    {
        self.selected.is_some()
    }

    /// Chooses a device.
    pub fn select_device(&mut self, serial: &str)
        ensures
            final(self)@ == old(self)@.selecting(Some(serial@)),
    {
        self.selected = Some(serial.to_string());
        self.request_display_fetch();
    }

    /// The displays to choose from.
    pub fn displays(&self) -> (r: &Vec<DisplayInfo>)
        ensures
            r@ == self@.displays,
    {
        &self.displays
    }

    /// The label of the chosen display.
    pub fn display_label(&self) -> (r: String)
        ensures
            r@ == match find_display(self@.displays, self@.settings.display_id) {
                Some(d) => d.labelled(),
                None => "Display "@ + text::decimal(self@.settings.display_id as nat),
            },
    {
        let id: u32 = self.settings.display_id;
        let ghost all = self.displays@;
        let mut i: usize = 0;
        assert(all.skip(0) =~= all);
        while i < self.displays.len()
            invariant
                all == self.displays@,
                id == self.settings.display_id,
                i <= all.len(),
                find_display(all.skip(i as int), id) == find_display(all, id),
            decreases all.len() - i,
        {
            proof {
                assert(all.skip(i as int)[0] == all[i as int]);
                assert(all.skip(i as int).drop_first() =~= all.skip(i + 1));
            }
            if self.displays[i].id == id {
                return self.displays[i].label();
            }
            i = i + 1;
        }
        prefixed("Display ", text::dec(id as u64).as_str())
    }

    /// The quality settings.
    pub fn settings(&self) -> (r: Settings)
        ensures
            r == self@.settings,
    {
        self.settings
    }

    /// Changes the quality settings.
    pub fn set_settings(&mut self, settings: Settings)
        ensures
            final(self)@ == (AppView { settings, ..old(self)@ }),
    {
        self.settings = settings;
    }

    /// How the picture is shown.
    pub fn view_params(&self) -> (r: ViewParams)
        ensures
            r == self@.view,
    {
        self.view
    }

    /// Changes how the picture is shown.
    pub fn set_view_params(&mut self, view: ViewParams)
        ensures
            final(self)@ == (AppView { view, ..old(self)@ }),
    {
        self.view = view;
    }

    /// Changes the crop to one of those that have a button.
    pub fn set_crop(&mut self, preset: CropPreset)
        ensures
            final(self)@ == old(self)@.showing(preset),
            final(self)@ == (AppView {
                view: ViewParams { uv: preset.corners(), ..old(self)@.view },
                ..old(self)@
            }),
    {
        self.view.uv = preset.crop();
    }

    /// The addresses that are remembered.
    pub fn remotes(&self) -> (r: &Vec<String>)
        ensures
            text::views(r@) == self@.remotes,
    {
        &self.remotes
    }

    /// Whether an attempt to connect over the network is under way.
    pub fn is_connecting(&self) -> (r: bool)
        ensures
            r == self@.connecting,
    {
        self.connecting
    }

    /// What the last action came to.
    pub fn message(&self) -> (r: &Option<String>)
        ensures
            text::opt_view(*r) == self@.message,
    {
        &self.message
    }

    /// What is shown, if anything.
    pub fn shown_source(&self) -> (r: Option<Source>)
        ensures
            r == self@.shown(),
    {
        if self.flat.is_some() {
            Some(Source::Flat)
        } else if self.stream.is_some() {
            Some(Source::Panel)
        } else {
            None
        }
    }

    /// Whether there is a picture.
    pub fn has_texture(&self) -> (r: bool)
        ensures
            r == self@.texture,
    {
        self.texture
    }

    /// The generation of the newest frame that was shown.
    pub fn last_generation(&self) -> (r: u64)
        ensures
            r == self@.last_generation,
    {
        self.last_generation
    }

    /// What the connect button shows: the flat view of a Quest, and the panel of anything else.
    pub fn default_source(&self) -> (r: Source)
        ensures
            r == self@.connects_to(),
            r == if self@.quest() {
                Source::Flat
            } else {
                Source::Panel
            },
    {
        if self.selected_is_quest() {
            Source::Flat
        } else {
            Source::Panel
        }
    }

    /// What connecting anew with changed settings shows, where that is offered.
    pub fn apply_source(&self) -> (r: Option<Source>)
        requires
            self@.flat is Some ==> self@.bitrate_fits(),
        ensures
            r == self@.offers(),
            r == if self@.up_to_date() {
                None
            } else {
                self@.shown()
            },
    {
        if self.active_config_matches() {
            None
        } else {
            self.shown_source()
        }
    }

    /// Whether the tools for crop, lens and tilt are shown. The flat view needs none of them.
    pub fn show_tools(&self) -> (r: bool)
        ensures
            r == (self@.flat is None && (self@.stream is Some || !self@.quest())),
            r == self@.has_tools(),
    {
        self.flat.is_none() && (self.stream.is_some() || !self.selected_is_quest())
    }

    /// What stands in place of the picture while there is none.
    pub fn placeholder(&self) -> (r: &'static str)
        ensures
            r@ == if self@.active() {
                "Waiting for first frame…"@
            } else {
                "Pick your Quest and hit Connect."@
            },
    {
        if self.stream.is_some() || self.flat.is_some() {
            "Waiting for first frame…"
        } else {
            "Pick your Quest and hit Connect."
        }
    }
}

/// After the devices were listed, adb can talk to the one that is chosen; and none is chosen only
/// where adb can talk to none.
pub proof fn law_chosen_device_is_online(app: AppView, ds: Seq<DeviceView>)
    ensures
        ({
            let s = app.with_devices(ds);
            &&& s.devices == ds
            &&& s.selected matches Some(serial) ==> has_online(ds, serial)
            &&& s.selected is None <==> adb::online_of(ds).len() == 0
        }),
{
    lemma_preferred_is_online(ds);
    if app.still_there(ds) {
        let serial = app.selected->0;
        let i = choose|i: int|
            0 <= i < ds.len() && (#[trigger] ds[i]).serial == serial && ds[i].online();
        lemma_online_listed(ds, i);
    }
}

/// A device that adb can talk to is one of those.
proof fn lemma_online_listed(ds: Seq<DeviceView>, i: int)
    requires
        0 <= i < ds.len(),
        ds[i].online(),
    ensures
        adb::online_of(ds).len() > 0,
    decreases ds.len(),
{
    if i < ds.len() - 1 {
        lemma_online_listed(ds.drop_last(), i);
    }
}

/// The preferred device is one that adb can talk to, and there is one wherever there is such a
/// device.
proof fn lemma_preferred_is_online(ds: Seq<DeviceView>)
    ensures
        adb::preferred(ds) is None <==> adb::online_of(ds).len() == 0,
        forall|k: int|
            0 <= k < adb::online_of(ds).len() ==> has_online(
                ds,
                (#[trigger] adb::online_of(ds)[k]).serial,
            ),
        forall|k: int|
            0 <= k < adb::online_usb_of(ds).len() ==> has_online(
                ds,
                (#[trigger] adb::online_usb_of(ds)[k]).serial,
            ),
        adb::online_usb_of(ds).len() <= adb::online_of(ds).len(),
    decreases ds.len(),
{
    if ds.len() > 0 {
        let head = ds.drop_last();
        lemma_preferred_is_online(head);
        assert forall|serial: Seq<char>| has_online(head, serial) implies has_online(
            ds,
            serial,
        ) by {
            let i = choose|i: int|
                0 <= i < head.len() && (#[trigger] head[i]).serial == serial && head[i].online();
            assert(ds[i] == head[i]);
        }
        if ds.last().online() {
            assert(ds[ds.len() - 1].online());
            assert(has_online(ds, ds.last().serial));
        }
        assert forall|k: int| 0 <= k < adb::online_of(ds).len() implies has_online(
            ds,
            (#[trigger] adb::online_of(ds)[k]).serial,
        ) by {
            if k < adb::online_of(head).len() {
                assert(adb::online_of(ds)[k] == adb::online_of(head)[k]);
            }
        }
        assert forall|k: int| 0 <= k < adb::online_usb_of(ds).len() implies has_online(
            ds,
            (#[trigger] adb::online_usb_of(ds)[k]).serial,
        ) by {
            if k < adb::online_usb_of(head).len() {
                assert(adb::online_usb_of(ds)[k] == adb::online_usb_of(head)[k]);
            }
        }
    }
}

/// Settings are saved once they have stayed as they are for half a second, and not before: a
/// change starts the time anew, and looking at unchanged settings does not.
pub proof fn law_settings_are_saved_when_quiet(app: AppView, changed: u64, later: u64)
    requires
        app.config() != app.seen,
        !app.config().equals(app.persisted) || app.dirty_since is Some,
    ensures
        ({
            let s = app.after_autosave(changed);
            &&& !app.save_due(changed)
            &&& s.dirty_since == Some(changed)
            &&& s.save_due(later) <==> later - changed >= QUIET_MILLIS
            &&& QUIET_MILLIS == 500
            &&& !s.save_due(later) ==> s.after_autosave(later) == s
            &&& s.save_due(later) ==> s.after_autosave(later).persisted == app.config()
                && s.after_autosave(later).dirty_since is None
        }),
{
}

/// Settings that were not changed are never saved.
pub proof fn law_unchanged_settings_are_not_saved(app: AppView, now: u64)
    requires
        app.config().equals(app.persisted),
        app.dirty_since is None,
    ensures
        !app.save_due(now),
        app.after_autosave(now).dirty_since is None,
        app.after_autosave(now).persisted == app.persisted,
{
}

/// The window opens with settings that need not be saved, whatever the command line asks for,
/// where every number in them is one.
pub proof fn law_opening_saves_nothing(
    startup: StartupConfig,
    c: ConfigView,
    ds: Seq<DeviceView>,
    now: u64,
)
    requires
        c.has_numbers(),
    ensures
        ({
            let s = AppView::opened(startup, c, ds);
            s.config() == s.persisted && !s.save_due(now)
        }),
{
}

/// No address is remembered twice, nor when it was not connected to.
pub proof fn law_addresses_are_remembered_once(
    app: AppView,
    addr: Option<Seq<char>>,
    reply: Seq<char>,
    ds: Seq<DeviceView>,
)
    requires
        app.remotes.no_duplicates(),
    ensures
        ({
            let s = app.remote_connected(addr, reply, ds);
            &&& s.remotes.no_duplicates()
            &&& addr matches Some(a) ==> s.remotes.contains(a)
            &&& forall|r: Seq<char>|
                s.remotes.contains(r) ==> app.remotes.contains(r) || addr == Some(r)
            &&& addr is None ==> s.remotes == app.remotes
        }),
{
    if let Some(a) = addr {
        let s = app.remote_connected(addr, reply, ds);
        if app.remotes.contains(a) {
        } else {
            assert(s.remotes == app.remotes.push(a));
            assert(s.remotes[app.remotes.len() as int] == a);
            assert forall|r: Seq<char>| s.remotes.contains(r) implies app.remotes.contains(r)
                || addr == Some(r) by {
                let i = choose|i: int| 0 <= i < s.remotes.len() && s.remotes[i] == r;
                if i < app.remotes.len() {
                    assert(app.remotes[i] == r);
                }
            }
        }
    }
}

/// An address that was forgotten is not remembered, and every other one still is.
pub proof fn law_forgotten_address_is_gone(remotes: Seq<Seq<char>>, addr: Seq<char>)
    ensures
        !text::without(remotes, addr).contains(addr),
        forall|r: Seq<char>|
            r != addr ==> (remotes.contains(r) <==> #[trigger] text::without(
                remotes,
                addr,
            ).contains(r)),
    decreases remotes.len(),
{
    if remotes.len() > 0 {
        let head = remotes.drop_last();
        let last = remotes.last();
        law_forgotten_address_is_gone(head, addr);
        let w = text::without(head, addr);
        let all = text::without(remotes, addr);
        assert forall|r: Seq<char>| #[trigger] remotes.contains(r) <==> head.contains(r) || r
            == last by {
            if remotes.contains(r) {
                let i = choose|i: int| 0 <= i < remotes.len() && remotes[i] == r;
                if i < head.len() {
                    assert(head[i] == r);
                }
            }
            if head.contains(r) {
                let i = choose|i: int| 0 <= i < head.len() && head[i] == r;
                assert(remotes[i] == r);
            }
            if r == last {
                assert(remotes[remotes.len() - 1] == r);
            }
        }
        if last != addr {
            assert forall|r: Seq<char>| #[trigger] all.contains(r) <==> w.contains(r) || r
                == last by {
                if all.contains(r) {
                    let i = choose|i: int| 0 <= i < all.len() && all[i] == r;
                    if i < w.len() {
                        assert(w[i] == r);
                    }
                }
                if w.contains(r) {
                    let i = choose|i: int| 0 <= i < w.len() && w[i] == r;
                    assert(all[i] == r);
                }
                if r == last {
                    assert(all[all.len() - 1] == r);
                }
            }
        }
    }
}

/// The addresses that are remembered can be saved, however they come and go: one that is added
/// is in normal form, and was typed on one line.
pub proof fn law_remembered_addresses_can_be_saved(
    app: AppView,
    typed: Seq<char>,
    reply: Seq<char>,
    ds: Seq<DeviceView>,
    forgotten: Seq<char>,
)
    requires
        app.config().plain_remotes(),
        !typed.contains('\n'),
    ensures
        app.remote_connected(Some(adb::normalized(typed)), reply, ds).config().plain_remotes(),
        (AppView { remotes: text::without(app.remotes, forgotten), ..app }).config().plain_remotes(),
{
    let addr = adb::normalized(typed);
    let s = app.remote_connected(Some(addr), reply, ds);
    text::lemma_trimmed_has_no(typed, '\n');
    text::lemma_trimmed_is_trimmed(typed);
    reveal_strlit(":5555");
    let a = text::trimmed(typed);
    assert(config::is_value(addr)) by {
        if !a.contains(':') {
            assert(addr.last() == '5');
            assert forall|i: int| 0 <= i < addr.len() implies #[trigger] addr[i] != '\n' by {
                if i < a.len() {
                    assert(a.contains(a[i]));
                    assert(addr[i] == a[i]);
                }
            }
            if a.len() > 0 {
                assert(addr[0] == a[0]);
            }
        } else {
            assert(a.len() > 0);
        }
    }
    law_addresses_are_remembered_once(app, Some(addr), reply, ds);
    assert(s.config().remotes == s.remotes && app.config().remotes == app.remotes);
    assert forall|i: int| 0 <= i < s.remotes.len() implies config::is_value(
        #[trigger] s.remotes[i],
    ) by {
        if i < app.remotes.len() {
            assert(s.remotes[i] == app.remotes[i]);
        }
    }
    lemma_without_keeps(app.remotes, forgotten);
}

/// What is left when an address is forgotten are some of the addresses, each once if each was
/// there once.
proof fn lemma_without_keeps(remotes: Seq<Seq<char>>, addr: Seq<char>)
    ensures
        forall|i: int|
            0 <= i < text::without(remotes, addr).len() ==> remotes.contains(
                #[trigger] text::without(remotes, addr)[i],
            ),
        remotes.no_duplicates() ==> text::without(remotes, addr).no_duplicates(),
    decreases remotes.len(),
{
    if remotes.len() > 0 {
        let head = remotes.drop_last();
        let w = text::without(head, addr);
        let all = text::without(remotes, addr);
        lemma_without_keeps(head, addr);
        assert(remotes[remotes.len() - 1] == remotes.last());
        assert forall|i: int| 0 <= i < w.len() implies head.contains(#[trigger] w[i])
            && remotes.contains(w[i]) by {
            let k = choose|k: int| 0 <= k < head.len() && head[k] == w[i];
            assert(remotes[k] == w[i]);
        }
        assert forall|i: int| 0 <= i < all.len() implies remotes.contains(#[trigger] all[i]) by {
            if i < w.len() {
                assert(all[i] == w[i]);
            }
        }
        if remotes.no_duplicates() {
            assert(head.no_duplicates());
            assert forall|i: int, j: int|
                0 <= i < all.len() && 0 <= j < all.len() && i != j implies all[i] != all[j] by {
                if i < w.len() && j < w.len() {
                    assert(w[i] != w[j]);
                } else {
                    let k = if i < w.len() {
                        i
                    } else {
                        j
                    };
                    assert(head.contains(w[k]));
                    let m = choose|m: int| 0 <= m < head.len() && head[m] == w[k];
                    assert(remotes[m] != remotes[remotes.len() - 1]);
                }
            }
        }
    }
}

/// The settings of the last run are back when the window opens, where the command line asks for
/// nothing else; lens, tilt, crop and addresses are back in any case.
pub proof fn law_settings_are_restored(startup: StartupConfig, c: ConfigView, ds: Seq<DeviceView>)
    ensures
        ({
            let s = AppView::opened(startup, c, ds).config();
            &&& s.lens_correct == c.lens_correct && s.lens_k1 == c.lens_k1 && s.lens_k2 == c.lens_k2
            &&& s.rotation_deg == c.rotation_deg && s.uv == c.uv && s.remotes == c.remotes
            &&& startup.display_id is None && startup.max_size is None && startup.bitrate_mbps is None
                && startup.max_fps is None && startup.audio is None ==> s == c
        }),
{
}

/// The displays are never asked for while the server is being connected to, and never twice at a
/// time, even where they are asked for anew or another device is chosen meanwhile.
pub proof fn law_displays_are_asked_for_one_at_a_time(
    app: AppView,
    status: Option<Status>,
    serial: Option<Seq<char>>,
    ds: Seq<DeviceView>,
    again: bool,
)
    requires
        app.asks_displays(!(status matches Some(Status::Connecting))),
        app.selected is Some,
    ensures
        ({
            let s = app.after_asking(!(status matches Some(Status::Connecting)));
            &&& !(status matches Some(Status::Connecting))
            &&& !s.asks_displays(again)
            &&& !s.asking_displays().asks_displays(again)
            &&& !s.selecting(serial).asks_displays(again)
            &&& !s.with_devices(ds).asks_displays(again)
            &&& !s.panel_connected().asks_displays(again)
            &&& !s.disconnected().asks_displays(again)
        }),
{
}

/// Right after connecting, what is shown is up to date.
pub proof fn law_connected_is_up_to_date(app: AppView)
    requires
        app.selected is Some,
        app.bitrate_fits(),
    ensures
        app.flat is None ==> app.panel_connected().up_to_date(),
        app.flat_connected().up_to_date(),
{
}

/// What the command line asks for stands, and what it leaves out is as it was saved.
pub proof fn law_command_line_overrides(
    startup: StartupConfig,
    c: ConfigView,
    ds: Seq<DeviceView>,
)
    ensures
        ({
            let s = AppView::opened(startup, c, ds).settings;
            &&& s.display_id == overridden(c.display_id, startup.display_id)
            &&& s.max_size == overridden(c.max_size, startup.max_size)
            &&& s.bitrate_mbps == overridden(c.bitrate_mbps, startup.bitrate_mbps)
            &&& s.max_fps == overridden(c.max_fps, startup.max_fps)
            &&& s.audio == overridden(c.audio, startup.audio)
            &&& startup.display_id matches Some(v) ==> s.display_id == v
            &&& startup.max_size matches Some(v) ==> s.max_size == v
            &&& startup.bitrate_mbps matches Some(v) ==> s.bitrate_mbps == v
            &&& startup.max_fps matches Some(v) ==> s.max_fps == v
            &&& startup.audio matches Some(v) ==> s.audio == v
            &&& startup.display_id is None ==> s.display_id == c.display_id
            &&& startup.max_size is None ==> s.max_size == c.max_size
            &&& startup.bitrate_mbps is None ==> s.bitrate_mbps == c.bitrate_mbps
            &&& startup.max_fps is None ==> s.max_fps == c.max_fps
            &&& startup.audio is None ==> s.audio == c.audio
        }),
        startup.serial matches Some(serial) && find_device(ds, serial@) is Some
            ==> AppView::opened(startup, c, ds).selected == Some(startup.serial->0@),
{
}

/// The window connects by itself once at most: nothing that happens later brings it about again.
pub proof fn law_autostart_happens_once(
    app: AppView,
    ds: Seq<DeviceView>,
    found: Seq<DisplayInfo>,
    addr: Option<Seq<char>>,
    reply: Seq<char>,
    safe: bool,
    now: u64,
)
    requires
        !app.want_autostart,
    ensures
        !app.autostarts(),
        !app.with_devices(ds).want_autostart,
        !app.selecting(addr).want_autostart,
        !app.panel_connected().want_autostart,
        !app.flat_connected().want_autostart,
        !app.disconnected().want_autostart,
        !app.after_asking(safe).want_autostart,
        !app.with_displays(found).want_autostart,
        !app.without_displays().want_autostart,
        !app.remote_connected(addr, reply, ds).want_autostart,
        !app.saying(reply).want_autostart,
        !app.after_autosave(now).want_autostart,
{
}

/// The flat view is shown with the bit rate of the settings, counted in single bits, and with two
/// megabits per second where they ask for less; with their size unless that is below 640, and with
/// their frame rate unless they leave that open. So the two views agree wherever the settings are
/// fit for both.
pub proof fn law_flat_view_follows_settings(app: AppView)
    requires
        app.bitrate_fits(),
    ensures
        ({
            let (f, p, s) = (app.flat_options(), app.panel_options(), app.settings);
            &&& f.bitrate >= 2_000_000
            &&& f.bitrate as int == 1_000_000 * vstd::math::max(s.bitrate_mbps as int, 2)
            &&& s.bitrate_mbps >= 2 ==> f.bitrate == p.video_bit_rate
            &&& f.max_size >= 640
            &&& f.max_size == s.max_size || (s.max_size < 640 && f.max_size == 1920)
            &&& s.max_size >= 640 ==> f.max_size == p.max_size
            &&& f.fps > 0
            &&& f.fps == s.max_fps || (s.max_fps == 0 && f.fps == 72)
            &&& s.max_fps > 0 ==> f.fps == p.max_fps
            &&& f.audio == s.audio
        }),
{
}

/// The panel is mirrored with the settings as they are, its bit rate counted in single bits.
pub proof fn law_panel_follows_settings(app: AppView)
    requires
        app.bitrate_fits(),
    ensures
        ({
            let (p, s) = (app.panel_options(), app.settings);
            &&& p.display_id == s.display_id
            &&& p.max_size == s.max_size
            &&& p.max_fps == s.max_fps
            &&& p.audio == s.audio
            &&& p.video_bit_rate as int / 1_000_000 == s.bitrate_mbps
            &&& p.video_bit_rate as int % 1_000_000 == 0
            &&& p.audio_bit_rate == 128_000
        }),
{
}

/// What is shown falls behind when a setting that it was connected with is changed, and is up to
/// date again when the change is taken back. To the flat view it makes no difference which display
/// is chosen.
pub proof fn law_changed_settings_are_noticed(app: AppView, settings: Settings)
    requires
        app.selected is Some,
        app.bitrate_fits(),
        (AppView { settings, ..app }).bitrate_fits(),
    ensures
        app.flat is None ==> ({
            let changed = AppView { settings, ..app.panel_connected() };
            changed.up_to_date() <==> settings == app.settings
        }),
        ({
            let changed = AppView { settings, ..app.flat_connected() };
            let old = app.settings;
            &&& settings.max_size == old.max_size && settings.bitrate_mbps == old.bitrate_mbps
                && settings.max_fps == old.max_fps && settings.audio == old.audio
                ==> changed.up_to_date()
            &&& settings.audio != old.audio ==> !changed.up_to_date()
            &&& settings.max_size != old.max_size && settings.max_size >= 640 && old.max_size >= 640
                ==> !changed.up_to_date()
            &&& settings.bitrate_mbps != old.bitrate_mbps && settings.bitrate_mbps >= 2
                && old.bitrate_mbps >= 2 ==> !changed.up_to_date()
            &&& settings.max_fps != old.max_fps && settings.max_fps > 0 && old.max_fps > 0
                ==> !changed.up_to_date()
        }),
{
}

/// Connecting shows what was asked for and ending shows nothing. None of it changes the settings,
/// the choice of the device or what is remembered.
pub proof fn law_what_is_shown(app: AppView)
    requires
        app.selected is Some,
    ensures
        ({
            let s = app.flat_connected();
            &&& s.shown() == Some(Source::Flat) && s.active() && s.stream is None
            &&& !s.texture && s.last_generation == 0
            &&& s.settings == app.settings && s.selected == app.selected && s.remotes
                == app.remotes && s.devices == app.devices && s.displays == app.displays
            &&& !s.view.lens_correct && s.view.uv == CropPreset::FullPanel.corners()
            &&& s.view.lens_k1 == app.view.lens_k1 && s.view.lens_k2 == app.view.lens_k2
        }),
        ({
            let s = app.panel_connected();
            &&& s.active() && s.stream is Some
            &&& app.flat is None ==> s.shown() == Some(Source::Panel)
            &&& !s.texture && s.last_generation == 0
            &&& s.settings == app.settings && s.view == app.view && s.selected == app.selected
                && s.remotes == app.remotes && s.devices == app.devices && s.displays
                == app.displays
        }),
        ({
            let s = app.disconnected();
            &&& s.shown() is None && !s.active() && !s.texture && !s.up_to_date()
            &&& s.settings == app.settings && s.view == app.view && s.selected == app.selected
                && s.remotes == app.remotes && s.devices == app.devices && s.displays
                == app.displays
        }),
        app.shown() is Some <==> app.active(),
{
}

/// The device that is found has the serial, and none before it has; where none is found, no device
/// has it.
pub proof fn law_device_is_found_by_serial(ds: Seq<DeviceView>, serial: Seq<char>)
    ensures
        match find_device(ds, serial) {
            Some(d) => exists|i: int|
                0 <= i < ds.len() && #[trigger] ds[i] == d && d.serial == serial && forall|j: int|
                    0 <= j < i ==> (#[trigger] ds[j]).serial != serial,
            None => forall|j: int| 0 <= j < ds.len() ==> (#[trigger] ds[j]).serial != serial,
        },
    decreases ds.len(),
{
    if ds.len() > 0 && ds[0].serial != serial {
        let rest = ds.drop_first();
        law_device_is_found_by_serial(rest, serial);
        assert forall|j: int| 1 <= j < ds.len() implies #[trigger] ds[j] == rest[j - 1] by {}
        if let Some(d) = find_device(rest, serial) {
            let i = choose|i: int|
                0 <= i < rest.len() && #[trigger] rest[i] == d && d.serial == serial && forall|
                    j: int,
                |
                    0 <= j < i ==> (#[trigger] rest[j]).serial != serial;
            assert(ds[i + 1] == d);
        }
    }
}

/// The display that is found has the id, and none before it has; where none is found, no display
/// has it.
pub proof fn law_display_is_found_by_id(list: Seq<DisplayInfo>, id: u32)
    ensures
        match find_display(list, id) {
            Some(d) => exists|i: int|
                0 <= i < list.len() && #[trigger] list[i] == d && d.id == id && forall|j: int|
                    0 <= j < i ==> (#[trigger] list[j]).id != id,
            None => forall|j: int| 0 <= j < list.len() ==> (#[trigger] list[j]).id != id,
        },
    decreases list.len(),
{
    if list.len() > 0 && list[0].id != id {
        let rest = list.drop_first();
        law_display_is_found_by_id(rest, id);
        assert forall|j: int| 1 <= j < list.len() implies #[trigger] list[j] == rest[j - 1] by {}
        if let Some(d) = find_display(rest, id) {
            let i = choose|i: int|
                0 <= i < rest.len() && #[trigger] rest[i] == d && d.id == id && forall|j: int|
                    0 <= j < i ==> (#[trigger] rest[j]).id != id;
            assert(list[i + 1] == d);
        }
    }
}

/// A model is that of a Quest where one of the four names stands anywhere in it, and nowhere else.
pub proof fn law_quest_is_known_by_name(low: Seq<char>)
    ensures
        forall|a: Seq<char>, b: Seq<char>, name: Seq<char>|
            (name == "quest"@ || name == "oculus"@ || name == "eureka"@ || name == "meta"@) && low
                == #[trigger] (a + name + b) ==> is_quest(low),
        is_quest(low) ==> exists|a: Seq<char>, b: Seq<char>, name: Seq<char>|
            (name == "quest"@ || name == "oculus"@ || name == "eureka"@ || name == "meta"@) && low
                == #[trigger] (a + name + b),
{
    text::law_occurs_where_it_stands(low, "quest"@);
    text::law_occurs_where_it_stands(low, "oculus"@);
    text::law_occurs_where_it_stands(low, "eureka"@);
    text::law_occurs_where_it_stands(low, "meta"@);
    if is_quest(low) {
        let name = if text::occurs(low, "quest"@) {
            "quest"@
        } else if text::occurs(low, "oculus"@) {
            "oculus"@
        } else if text::occurs(low, "eureka"@) {
            "eureka"@
        } else {
            "meta"@
        };
        let (a, b) = choose|a: Seq<char>, b: Seq<char>| low == #[trigger] (a + name + b);
        assert(low == a + name + b);
    }
}

/// When the displays come in, the chosen one stays chosen if it is among the real ones, another of
/// them is chosen if it is not, and without any the choice stands. Nothing else of the settings
/// changes, and every real display can be chosen.
pub proof fn law_displays_settle_the_choice(app: AppView, found: Seq<DisplayInfo>)
    ensures
        ({
            let s = app.with_displays(found);
            let chosen = s.settings.display_id;
            &&& forall|i: int|
                0 <= i < found.len() && (#[trigger] found[i]).width >= 2 && found[i].height >= 2
                    ==> s.displays.contains(found[i])
            &&& forall|i: int|
                0 <= i < s.displays.len() ==> found.contains(#[trigger] s.displays[i])
                    && s.displays[i].width >= 2 && s.displays[i].height >= 2
            &&& (exists|i: int|
                0 <= i < s.displays.len() && (#[trigger] s.displays[i]).id
                    == app.settings.display_id) ==> chosen == app.settings.display_id
            &&& s.displays.len() > 0 ==> exists|i: int|
                0 <= i < s.displays.len() && (#[trigger] s.displays[i]).id == chosen
            &&& s.displays.len() == 0 ==> chosen == app.settings.display_id
            &&& s.settings == (Settings { display_id: chosen, ..app.settings })
            &&& !s.fetch_inflight
            &&& s.selected == app.selected && s.stream == app.stream && s.flat == app.flat
        }),
{
    broadcast use vstd::seq_lib::group_to_multiset_ensures;

    let kept = displays::genuine_ones(found);
    let s = app.with_displays(found);
    displays::law_real_displays_are_kept(found);
    displays::law_largest_first_is_a_stable_sort(kept);
    kept.to_multiset_ensures();
    s.displays.to_multiset_ensures();
    let good = |d: DisplayInfo| d.width >= 2 && d.height >= 2;
    assert forall|i: int|
        0 <= i < found.len() && (#[trigger] found[i]).width >= 2 && found[i].height
            >= 2 implies s.displays.contains(found[i]) by {
        found.lemma_filter_contains(good, i);
        assert(kept.contains(found[i]));
        assert(kept.to_multiset().count(found[i]) > 0);
        assert(s.displays.to_multiset().count(found[i]) > 0);
    }
    assert forall|i: int| 0 <= i < s.displays.len() implies found.contains(
        #[trigger] s.displays[i],
    ) && s.displays[i].width >= 2 && s.displays[i].height >= 2 by {
        let d = s.displays[i];
        assert(s.displays.contains(d));
        assert(s.displays.to_multiset().count(d) > 0);
        assert(kept.to_multiset().count(d) > 0);
        assert(kept.contains(d));
        let k = choose|k: int| 0 <= k < kept.len() && kept[k] == d;
        found.lemma_filter_pred(good, k);
        assert(good(kept[k]));
        found.lemma_filter_contains_rev(good, d);
    }
    if s.displays.len() > 0 {
        displays::law_choice_is_listed(s.displays, app.settings.display_id);
    }
}

/// Forgetting an address leaves the others, in their order.
pub proof fn law_forgetting_keeps_the_order(remotes: Seq<Seq<char>>, addr: Seq<char>)
    ensures
        text::without(remotes, addr) == remotes.filter(|r: Seq<char>| r != addr),
    decreases remotes.len(),
{
    reveal(Seq::filter);
    if remotes.len() > 0 {
        law_forgetting_keeps_the_order(remotes.drop_last(), addr);
    } else {
        assert(text::without(remotes, addr) =~= remotes.filter(|r: Seq<char>| r != addr));
    }
}

/// After an address was connected to, it stands behind those that were remembered before, unless
/// it was one of them. Its device is chosen and asked for its displays if adb can talk to it, and
/// the attempt is over.
pub proof fn law_connected_address_is_chosen(
    app: AppView,
    addr: Seq<char>,
    reply: Seq<char>,
    ds: Seq<DeviceView>,
    i: int,
)
    ensures
        ({
            let s = app.remote_connected(Some(addr), reply, ds);
            &&& !s.connecting
            &&& s.message == Some("🔗 "@ + reply)
            &&& s.devices == ds
            &&& s.remotes.take(app.remotes.len() as int) == app.remotes
            &&& s.remotes.len() <= app.remotes.len() + 1
            &&& !app.remotes.contains(addr) ==> s.remotes.last() == addr
            &&& 0 <= i < ds.len() && ds[i].serial == addr && ds[i].state == "device"@
                ==> s.selected == Some(addr) && s.need_display_fetch && s.displays.len() == 0
            &&& s.settings == app.settings && s.stream == app.stream && s.flat == app.flat
        }),
{
    let s = app.remote_connected(Some(addr), reply, ds);
    assert(s.remotes.take(app.remotes.len() as int) =~= app.remotes);
    if 0 <= i < ds.len() && ds[i].serial == addr && ds[i].state == "device"@ {
        assert(has_online(ds, addr));
    }
}

/// The choice of a device stands for as long as adb can talk to it. When it is gone, its displays
/// are forgotten and those of the next one are asked for.
pub proof fn law_choice_of_device_stands(app: AppView, ds: Seq<DeviceView>, serial: Seq<char>)
    requires
        app.selected == Some(serial),
    ensures
        ({
            let s = app.with_devices(ds);
            &&& (exists|i: int|
                0 <= i < ds.len() && (#[trigger] ds[i]).serial == serial && ds[i].state
                    == "device"@) ==> s == (AppView { devices: ds, ..app })
            &&& !(exists|i: int|
                0 <= i < ds.len() && (#[trigger] ds[i]).serial == serial && ds[i].state
                    == "device"@) ==> s.need_display_fetch && s.displays.len() == 0 && s.selected
                != app.selected
            &&& s.settings == app.settings && s.remotes == app.remotes && s.stream == app.stream
                && s.flat == app.flat
        }),
{
    lemma_preferred_is_online(ds);
    let s = app.with_devices(ds);
    if exists|i: int|
        0 <= i < ds.len() && (#[trigger] ds[i]).serial == serial && ds[i].state == "device"@ {
        let i = choose|i: int|
            0 <= i < ds.len() && (#[trigger] ds[i]).serial == serial && ds[i].state == "device"@;
        assert(ds[i].online());
        assert(has_online(ds, serial));
    } else {
        assert(!has_online(ds, serial));
        law_chosen_device_is_online(app, ds);
    }
}

/// The line for a session that streams tells its size, width first; an error is told in full; and
/// the other states are told apart.
pub proof fn law_status_line_tells_the_size(width: u32, height: u32, status: Option<Status>)
    requires
        status matches Some(Status::Streaming { width: w, height: h, rate }) ==> w == width && h
            == height,
    ensures
        match line_for(status) {
            StatusLineView::Streaming(line) => {
                &&& status matches Some(Status::Streaming { .. })
                &&& text::split_once(line.skip(2), '×') matches Some((w, rest)) && text::number(w)
                    == Some(width) && (text::split_once(rest, ' ') matches Some((h, _))
                    && text::number(h) == Some(height))
            },
            StatusLineView::Error(line) => status matches Some(Status::Error(e)) && line.skip(2)
                == e@,
            StatusLineView::Idle => status is None,
            StatusLineView::Connecting => status matches Some(Status::Connecting),
            StatusLineView::Stopped => status matches Some(Status::Stopped),
        },
{
    reveal_strlit("● ");
    reveal_strlit("×");
    reveal_strlit("  ·  ");
    reveal_strlit("⚠ ");
    match status {
        Some(Status::Streaming { width: a, height: b, rate }) => {
            let (w, h) = (text::decimal(a as nat), text::decimal(b as nat));
            let line = "● "@ + w + "×"@ + h + "  ·  "@;
            let tail = "  ·  "@.skip(1);
            assert(line.skip(2) =~= w + seq!['×'] + (h + "  ·  "@));
            assert(h + "  ·  "@ =~= h + seq![' '] + tail);
            text::lemma_decimal_has_no(a as nat, '×');
            text::lemma_decimal_has_no(b as nat, ' ');
            text::lemma_split_once(w, '×', h + "  ·  "@);
            text::lemma_split_once(h, ' ', tail);
            text::law_decimal_is_read_back(a);
            text::law_decimal_is_read_back(b);
        },
        Some(Status::Error(e)) => {
            assert(("⚠ "@ + e@).skip(2) =~= e@);
        },
        _ => {},
    }
}

/// The record button acts on what is on the screen: nothing where nothing is, the end of a
/// recording where one runs, and else the view that is shown, the panel as it is cropped,
/// flattened and turned.
pub proof fn law_record_button_acts_on_what_is_shown(app: AppView, recording: bool)
    ensures
        app.shown() is None <==> app.record_button(recording) is Nothing,
        app.shown() is Some ==> (recording <==> app.record_button(recording) is Stop),
        app.record_button(recording) is StartFlat <==> app.shown() == Some(Source::Flat)
            && !recording,
        app.record_button(recording) is StartPanel <==> app.shown() == Some(Source::Panel)
            && !recording,
        app.record_button(recording) matches RecordToggle::StartPanel(v) ==> v == app.view,
{
}

/// The connect button shows the flat view where the chosen device is listed with one of the names
/// of a Quest in its model, and the panel everywhere else.
pub proof fn law_quest_is_shown_flat(app: AppView, serial: Seq<char>, d: DeviceView)
    requires
        app.selected == Some(serial),
        find_device(app.devices, serial) == Some(d),
    ensures
        app.connects_to() is Flat <==> is_quest(text::lowercase(d.model)),
        app.quest() <==> app.connects_to() is Flat,
        (AppView { selected: None, ..app }).connects_to() is Panel,
{
}

/// Connecting anew is offered where something is shown that was connected with other settings, and
/// right after connecting it is not.
pub proof fn law_connecting_anew_is_offered(app: AppView, settings: Settings)
    requires
        app.selected is Some,
        app.bitrate_fits(),
        (AppView { settings, ..app }).bitrate_fits(),
    ensures
        app.flat_connected().offers() is None,
        app.disconnected().offers() is None,
        app.flat is None ==> app.panel_connected().offers() is None,
        app.flat is None && settings != app.settings ==> (AppView {
            settings,
            ..app.panel_connected()
        }).offers() == Some(Source::Panel),
        settings.audio != app.settings.audio ==> (AppView {
            settings,
            ..app.flat_connected()
        }).offers() == Some(Source::Flat),
{
}

/// The tools are there for the panel and never for the flat view; before anything is shown they
/// are there unless the device is a Quest.
pub proof fn law_tools_belong_to_the_panel(app: AppView)
    requires
        app.selected is Some,
    ensures
        !app.flat_connected().has_tools(),
        app.flat is None ==> app.panel_connected().has_tools(),
        app.disconnected().has_tools() <==> app.connects_to() is Panel,
{
}

/// Only one attempt to connect is under way at a time: while it is, no other begins, and nothing
/// changes; once it has come to an end, good or bad, the next can begin. An attempt that failed
/// leaves the devices, the choice and what is remembered as they were.
pub proof fn law_one_attempt_at_a_time(
    app: AppView,
    addr: Seq<char>,
    other: Seq<char>,
    reply: Seq<char>,
    ds: Seq<DeviceView>,
)
    requires
        !app.connecting,
    ensures
        ({
            let s = app.connecting_to(addr);
            &&& app.target_of(addr) == Some(adb::normalized(addr))
            &&& s.connecting
            &&& s.target_of(other) is None
            &&& s.connecting_to(other) == s
            &&& s.remotes == app.remotes && s.selected == app.selected && s.settings == app.settings
            &&& s.connect_failed(reply).target_of(other) is Some
            &&& s.connect_failed(reply).remotes == app.remotes
            &&& s.connect_failed(reply).selected == app.selected
            &&& s.connect_failed(reply).devices == app.devices
            &&& s.connect_failed(reply).message == Some("Connect failed: "@ + reply)
            &&& s.remote_connected(s.target_of(addr), reply, ds).target_of(other) is Some
        }),
{
}

/// Connecting without being asked happens where it was asked for on the command line, a device is
/// chosen and the panel is not mirrored yet; and once it has happened it does not happen again.
pub proof fn law_autostart_asks_for_displays(app: AppView)
    ensures
        app.autostarts() <==> app.want_autostart && app.selected is Some && app.stream is None,
        app.autostarts() ==> app.after_autostart().need_display_fetch
            && app.after_autostart().displays.len() == 0 && !app.after_autostart().autostarts(),
        !app.autostarts() ==> app.after_autostart() == app,
        app.after_autostart().selected == app.selected,
        app.after_autostart().settings == app.settings,
{
}

/// The displays are asked for once a device is chosen anew and it is safe, and only then; what was
/// listed before is forgotten at once.
pub proof fn law_choosing_asks_for_displays(app: AppView, serial: Seq<char>)
    ensures
        ({
            let s = app.selecting(Some(serial));
            &&& s.selected == Some(serial) && s.displays.len() == 0
            &&& !s.asks_displays(false)
            &&& !app.fetch_inflight ==> s.asks_displays(true)
            &&& s.after_asking(false) == s
            &&& !app.fetch_inflight ==> s.after_asking(true).fetch_inflight && !s.after_asking(
                true,
            ).need_display_fetch && s.after_asking(true).selected == Some(serial)
            &&& s.after_asking(true).without_displays().fetch_inflight == false
            &&& s.after_asking(true).without_displays().displays.len() == 0
            &&& s.after_asking(true).without_displays().settings == app.settings
            &&& !app.fetch_inflight ==> !(AppView { selected: None, ..s }).after_asking(
                true,
            ).fetch_inflight
            &&& s.settings == app.settings && s.devices == app.devices && s.remotes == app.remotes
        }),
{
}

/// The tuned view is the one of a first run. Taking the lens back changes neither the crop nor
/// whether the lens is undone, and with the left eye and the lens undone it leads to the tuned view
/// from any other; the crop buttons change the crop alone. None of them changes anything else.
pub proof fn law_view_buttons_keep_the_rest(app: AppView, startup: StartupConfig, preset: CropPreset)
    ensures
        AppView::start(startup, ConfigView::default_view()).view == app.tuned().view,
        app.lens_reset().view.uv == app.view.uv,
        app.lens_reset().view.lens_correct == app.view.lens_correct,
        app.showing(preset).view.uv == preset.corners(),
        app.showing(preset).view.lens_correct == app.view.lens_correct
            && app.showing(preset).view.lens_k1 == app.view.lens_k1
            && app.showing(preset).view.lens_k2 == app.view.lens_k2
            && app.showing(preset).view.rotation_deg == app.view.rotation_deg,
        app.view.lens_correct ==> app.lens_reset().showing(CropPreset::LeftEye) == app.tuned(),
        app.tuned() == (AppView { view: app.tuned().view, ..app }),
        app.lens_reset() == (AppView { view: app.lens_reset().view, ..app }),
        app.showing(preset) == (AppView { view: app.showing(preset).view, ..app }),
{
}

/// Forgetting an address changes nothing but the list, and undoes remembering it.
pub proof fn law_forgetting_undoes_remembering(app: AppView, addr: Seq<char>)
    requires
        !app.remotes.contains(addr),
    ensures
        app.remembering(addr).forgetting(addr) == app,
        app.forgetting(addr) == app,
{
    lemma_nothing_to_forget(app.remotes, addr);
    let more = app.remotes.push(addr);
    assert(more.drop_last() =~= app.remotes);
}

/// A list that does not hold an address stays whole when that is forgotten.
proof fn lemma_nothing_to_forget(remotes: Seq<Seq<char>>, addr: Seq<char>)
    requires
        !remotes.contains(addr),
    ensures
        text::without(remotes, addr) == remotes,
    decreases remotes.len(),
{
    if remotes.len() > 0 {
        let less = remotes.drop_last();
        assert(!less.contains(addr)) by {
            if less.contains(addr) {
                let i = choose|i: int| 0 <= i < less.len() && less[i] == addr;
                assert(remotes[i] == addr);
            }
        }
        lemma_nothing_to_forget(less, addr);
        assert(remotes[remotes.len() - 1] != addr);
        assert(less.push(remotes.last()) =~= remotes);
    } else {
        assert(text::without(remotes, addr) =~= remotes);
    }
}

/// Where the command line names no device that is listed, the window opens on the first of those
/// that adb can talk to, one on USB before any on the network; and on none where adb can talk to
/// none. Nothing is shown yet.
pub proof fn law_window_opens_on_the_preferred_device(
    startup: StartupConfig,
    c: ConfigView,
    ds: Seq<DeviceView>,
)
    ensures
        ({
            let app = AppView::opened(startup, c, ds);
            &&& app.devices == ds && app.need_display_fetch && app.displays.len() == 0
            &&& !app.active() && !app.texture && !app.connecting && app.message is None
            &&& (startup.serial matches Some(s) ==> forall|i: int|
                0 <= i < ds.len() ==> (#[trigger] ds[i]).serial != s@) ==> match app.selected {
                Some(serial) => exists|i: int|
                    #[trigger] adb::first_choice(ds, i) && ds[i].serial == serial,
                None => forall|j: int| 0 <= j < ds.len() ==> (#[trigger] ds[j]).state != "device"@,
            }
        }),
{
    adb::law_preferred_device_is_first_of_its_kind(ds);
    if let Some(s) = startup.serial {
        law_device_is_found_by_serial(ds, s@);
    }
}

/// A bit rate is taken for as long as 32 bits count it: up to 4294 megabits per second.
pub proof fn law_bit_rates_up_to_4294_are_taken(app: AppView)
    ensures
        app.bitrate_fits() <==> app.settings.bitrate_mbps <= 4294,
{
}

/// Every address that is remembered is connected to, in order, unless there is none or an attempt is
/// under way; and while that goes on, no other attempt begins.
pub proof fn law_all_addresses_are_connected_to(app: AppView, addr: Seq<char>)
    ensures
        match app.targets() {
            Some(list) => list == app.remotes && list.len() > 0 && !app.connecting,
            None => app.remotes.len() == 0 || app.connecting,
        },
        app.targets() is Some ==> app.connecting_all().connecting && app.connecting_all().target_of(
            addr,
        ) is None && app.connecting_all().targets() is None && app.connecting_all().remotes
            == app.remotes,
        app.targets() is None ==> app.connecting_all() == app,
{
}

/// What became of a screenshot or a recording is told with the path or the error in full.
pub proof fn law_outcomes_are_told_in_full(s: Seq<char>)
    ensures
        screenshot_words(Some(Ok(s))).skip(screenshot_words(Some(Ok(s))).len() - s.len()) == s,
        screenshot_words(Some(Err(s))).skip(screenshot_words(Some(Err(s))).len() - s.len()) == s,
        recording_words(Ok(s)).skip(recording_words(Ok(s)).len() - s.len()) == s,
        recording_words(Err(s)).skip(recording_words(Err(s)).len() - s.len()) == s,
        screenshot_words(Some(Ok(s))) != screenshot_words(Some(Err(s))),
        recording_words(Ok(s)) != recording_words(Err(s)),
{
    reveal_strlit("📷 Saved ");
    reveal_strlit("Screenshot failed: ");
    reveal_strlit("⏺ Recording to ");
    reveal_strlit("Record failed: ");
    let (a, b) = ("📷 Saved "@ + s, "Screenshot failed: "@ + s);
    let (c, d) = ("⏺ Recording to "@ + s, "Record failed: "@ + s);
    assert(a.skip(a.len() - s.len()) =~= s && b.skip(b.len() - s.len()) =~= s);
    assert(c.skip(c.len() - s.len()) =~= s && d.skip(d.len() - s.len()) =~= s);
    assert(a[0] != b[0]);
    assert(c[0] != d[0]);
}

} // verus!
