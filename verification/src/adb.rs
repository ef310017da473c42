//! The `adb` command line: the arguments that each step runs it with, and what its output says.
//!
//! Running `adb` itself is left to the program. This module says what to run and reads the text
//! that came back.
use crate::text;
use crate::text::CharClass;
use vstd::prelude::*;

verus! {

/// The scrcpy-server protocol version that this client speaks. It must be that of the server
/// jar: the server refuses any other.
pub const SCRCPY_VERSION: &'static str = "4.0";

/// Where the server jar lies on the device.
pub const DEVICE_JAR_PATH: &'static str = "/data/local/tmp/scrcpy-server.jar";

/// A device that `adb devices -l` lists.
#[derive(Clone, Debug, PartialEq, Eq)]
pub struct Device {
    pub serial: String,
    pub model: String,
    pub state: String,
    pub usb: bool,
}

/// What a [`Device`] says, as text.
pub struct DeviceView {
    pub serial: Seq<char>,
    pub model: Seq<char>,
    pub state: Seq<char>,
    pub usb: bool,
}

impl View for Device {
    type V = DeviceView;

    open spec fn view(&self) -> DeviceView {
        DeviceView {
            serial: self.serial@,
            model: self.model@,
            state: self.state@,
            usb: self.usb,
        }
    }
}

impl DeviceView {
    /// The label of the device in a list.
    pub open spec fn labelled(self) -> Seq<char> {
        let model = if self.model.len() == 0 {
            "device"@
        } else {
            self.model
        };
        if self.usb {
            model + " (USB)"@
        } else {
            model + " ("@ + self.serial + ")"@
        }
    }

    /// Whether adb can talk to the device.
    pub open spec fn online(self) -> bool {
        self.state == "device"@
    }
}

/// The views of a sequence of devices.
pub open spec fn device_views(s: Seq<Device>) -> Seq<DeviceView> {
    s.map_values(|d: Device| d@)
}

/// The model that the last `model:` token names, or nothing.
pub open spec fn model_of(tokens: Seq<Seq<char>>) -> Seq<char>
    decreases tokens.len(),
{
    if tokens.len() == 0 {
        seq![]
    } else {
        match text::strip_prefix(tokens.last(), "model:"@) {
            Some(m) => m,
            None => model_of(tokens.drop_last()),
        }
    }
}

/// The device that one line of `adb devices -l` lists. A network device has a colon in its
/// serial.
pub open spec fn device_of(line: Seq<char>) -> Option<DeviceView> {
    let w = text::words(line);
    if w.len() == 0 {
        None
    } else {
        Some(
            DeviceView {
                serial: w[0],
                model: if w.len() > 2 {
                    model_of(w.skip(2))
                } else {
                    seq![]
                },
                state: if w.len() > 1 {
                    w[1]
                } else {
                    seq![]
                },
                usb: !w[0].contains(':'),
            },
        )
    }
}

/// The devices that a sequence of lines lists, in order.
pub open spec fn devices_of(ls: Seq<Seq<char>>) -> Seq<DeviceView>
    decreases ls.len(),
{
    if ls.len() == 0 {
        seq![]
    } else {
        match device_of(ls.last()) {
            Some(d) => devices_of(ls.drop_last()).push(d),
            None => devices_of(ls.drop_last()),
        }
    }
}

/// The devices that the output of `adb devices -l` lists: one on each line behind the heading.
pub open spec fn devices_in(output: Seq<char>) -> Seq<DeviceView> {
    let ls = text::lines(output);
    if ls.len() == 0 {
        seq![]
    } else {
        devices_of(ls.skip(1))
    }
}

/// The executable to run: what `ADB` names, else `adb` as the search path finds it.
pub fn adb_path(adb_var: Option<&str>) -> (r: String)
    ensures
        r@ == match adb_var {
            Some(p) => p@,
            None => "adb"@,
        },
{
    match adb_var {
        Some(p) => p.to_string(),
        None => "adb".to_string(),
    }
}

impl Device {
    /// A friendly label for dropdowns: `Quest_3 (USB)`, or `Quest_3 (192.168.1.35:5555)` for a
    /// device on the network.
    pub fn label(&self) -> (r: String)
        ensures
            r@ == self@.labelled(),
    {
        let mut s = if self.model.as_str().is_empty() {
            "device".to_string()
        } else {
            self.model.clone()
        };
        if self.usb {
            s.append(" (USB)");
        } else {
            s.append(" (");
            s.append(self.serial.as_str());
            s.append(")");
        }
        s
    }

    /// Whether adb can talk to the device.
    pub fn is_online(&self) -> (r: bool)
        ensures
            r == self@.online(),
    {
        text::same(self.state.as_str(), "device")
    }
}

/// The arguments that list the devices.
pub fn list_devices_args() -> (r: Vec<String>)
    ensures
        text::views(r@) =~= seq!["devices"@, "-l"@],
{
    vec!["devices".to_string(), "-l".to_string()]
}

/// The device that one line lists.
fn parse_device(line: &str) -> (r: Option<Device>)
    ensures
        match r {
            Some(d) => device_of(line@) == Some(d@),
            None => device_of(line@) is None,
        },
{
    let w = text::split_whitespace(line);
    if w.len() == 0 {
        return None;
    }
    let ghost all = text::words(line@);
    let serial = w[0].to_string();
    let state = if w.len() > 1 {
        w[1].to_string()
    } else {
        String::new()
    };
    let mut model = String::new();
    let mut i: usize = 2;
    while i < w.len()
        invariant
            2 <= i,
            w@.len() >= 2 ==> i <= w@.len(),
            w@.len() == all.len(),
            forall|j: int| 0 <= j < w@.len() ==> (#[trigger] w@[j])@ == all[j],
            w@.len() < 2 ==> model@ == Seq::<char>::empty(),
            w@.len() >= 2 ==> model@ == model_of(all.skip(2).take(i - 2)),
        decreases w@.len() - i,
    {
        proof {
            assert(all.skip(2).take(i - 1).drop_last() =~= all.skip(2).take(i - 2));
            assert(all.skip(2).take(i - 1).last() == w@[i as int]@);
        }
        if let Some(m) = text::after_prefix(w[i], "model:") {
            model = m.to_string();
        }
        i = i + 1;
    }
    proof {
        if w@.len() > 2 {
            assert(all.skip(2).take(i - 2) =~= all.skip(2));
        } else if w@.len() == 2 {
            assert(all.skip(2).take(0) =~= seq![]);
        }
    }
    let usb = !text::contains_char(serial.as_str(), ':');
    Some(Device { serial, model, state, usb })
}

/// The devices that the text of `adb devices -l` lists.
pub fn parse_devices(output: &str) -> (r: Vec<Device>)
    ensures
        device_views(r@) =~= devices_in(output@),
{
    let ls = text::split_lines(output);
    let ghost all = text::lines(output@);
    let mut devices: Vec<Device> = Vec::new();
    if ls.len() == 0 {
        return devices;
    }
    let ghost body = all.skip(1);
    let mut i: usize = 1;
    while i < ls.len()
        invariant
            1 <= i <= ls@.len(),
            ls@.len() == all.len(),
            body == all.skip(1),
            forall|j: int| 0 <= j < ls@.len() ==> (#[trigger] ls@[j])@ == all[j],
            device_views(devices@) =~= devices_of(body.take(i - 1)),
        decreases ls@.len() - i,
    {
        proof {
            assert(body.take(i as int).drop_last() =~= body.take(i - 1));
            assert(body.take(i as int).last() == ls@[i as int]@);
        }
        if let Some(d) = parse_device(ls[i]) {
            let ghost before = devices@;
            devices.push(d);
            assert(device_views(devices@) =~= device_views(before).push(d@));
        }
        i = i + 1;
    }
    assert(body.take(i - 1) =~= body);
    devices
}

/// The devices that `adb devices -l` lists, read from what it printed.
pub fn list_devices(stdout: &[u8]) -> (r: Vec<Device>)
    ensures
        device_views(r@) =~= devices_in(text::utf8_lossy(stdout@)),
{
    let output = text::from_utf8_lossy(stdout);
    parse_devices(output.as_str())
}

/// `addr` without white space around it, and with the port of wireless adb where it names none.
pub open spec fn normalized(addr: Seq<char>) -> Seq<char> {
    let a = text::trimmed(addr);
    if a.contains(':') {
        a
    } else {
        a + ":5555"@
    }
}

/// Normalises a typed address: adds the default port of wireless adb where there is none.
pub fn normalize_addr(addr: &str) -> (r: String)
    ensures
        r@ == normalized(addr@),
{
    let a = text::trim(addr);
    let mut s = a.to_string();
    if !text::contains_char(a, ':') {
        s.append(":5555");
    }
    s
}

/// What `adb connect` said: its output, or its complaints where it printed nothing.
pub open spec fn reply_of(stdout: Seq<char>, stderr: Seq<char>) -> Seq<char> {
    if text::trimmed(stdout).len() > 0 {
        text::trimmed(stdout)
    } else {
        text::trimmed(stderr)
    }
}

/// Whether a reply, in lower case, tells of a failure.
pub open spec fn is_refusal(low: Seq<char>) -> bool {
    ||| text::occurs(low, "fail"@)
    ||| text::occurs(low, "cannot"@)
    ||| text::occurs(low, "unable"@)
    ||| text::occurs(low, "refused"@)
}

/// What a connection attempt to `addr` came to, from the reply and its lower-case form.
pub open spec fn connect_outcome(addr: Seq<char>, reply: Seq<char>, low: Seq<char>) -> Result<
    Seq<char>,
    Seq<char>,
> {
    if is_refusal(low) {
        Err(reply)
    } else if reply.len() == 0 {
        Ok("connected to "@ + addr)
    } else {
        Ok(reply)
    }
}

/// The texts of a result.
pub open spec fn result_view(r: Result<String, String>) -> Result<Seq<char>, Seq<char>> {
    match r {
        Ok(s) => Ok(s@),
        Err(s) => Err(s@),
    }
}

/// The arguments that connect to `addr`.
pub fn connect_args(addr: &str) -> (r: Vec<String>)
    ensures
        text::views(r@) =~= seq!["connect"@, normalized(addr@)],
{
    vec!["connect".to_string(), normalize_addr(addr)]
}

/// The arguments that disconnect `addr`.
pub fn disconnect_args(addr: &str) -> (r: Vec<String>)
    ensures
        text::views(r@) =~= seq!["disconnect"@, normalized(addr@)],
{
    vec!["disconnect".to_string(), normalize_addr(addr)]
}

/// Judges the reply to a connection attempt by its lower-case form.
pub fn judge_reply(addr: &str, reply: &str, low: &str) -> (r: Result<String, String>)
    ensures
        result_view(r) == connect_outcome(addr@, reply@, low@),
{
    if text::contains(low, "fail") || text::contains(low, "cannot") || text::contains(low, "unable")
        || text::contains(low, "refused") {
        return Err(reply.to_string());
    }
    if reply.is_empty() {
        let mut s = "connected to ".to_string();
        s.append(addr);
        Ok(s)
    } else {
        Ok(reply.to_string())
    }
}

/// Reads what `adb connect` printed. Gives its status line, or the complaint.
pub fn connect(addr: &str, stdout: &[u8], stderr: &[u8]) -> (r: Result<String, String>)
    ensures
        ({
            let reply = reply_of(text::utf8_lossy(stdout@), text::utf8_lossy(stderr@));
            result_view(r) == connect_outcome(normalized(addr@), reply, text::lowercase(reply))
        }),
{
    let addr = normalize_addr(addr);
    let out = text::from_utf8_lossy(stdout);
    let err = text::from_utf8_lossy(stderr);
    let said = text::trim(out.as_str());
    let reply = if said.is_empty() {
        text::trim(err.as_str())
    } else {
        said
    };
    let low = text::to_lowercase(reply);
    judge_reply(addr.as_str(), reply, low.as_str())
}

/// The arguments that push a local file to the device.
pub fn push_args(serial: &str, local: &str, remote: &str) -> (r: Vec<String>)
    ensures
        text::views(r@) =~= seq!["-s"@, serial@, "push"@, local@, remote@],
{
    vec![
        "-s".to_string(),
        serial.to_string(),
        "push".to_string(),
        local.to_string(),
        remote.to_string(),
    ]
}

/// The arguments that push the server jar, of which `local` is a copy.
pub fn push_server_args(serial: &str, local: &str) -> (r: Vec<String>)
    ensures
        text::views(r@) =~= seq!["-s"@, serial@, "push"@, local@, DEVICE_JAR_PATH@],
{
    push_args(serial, local, DEVICE_JAR_PATH)
}

/// The local end of a forward.
pub open spec fn tcp_end(port: u16) -> Seq<char> {
    "tcp:"@ + text::decimal(port as nat)
}

/// The local end of a forward.
fn local_end(port: u16) -> (r: String)
    ensures
        r@ == tcp_end(port),
{
    let mut s = "tcp:".to_string();
    s.append(text::dec(port as u64).as_str());
    s
}

/// The arguments that forward a local port to the server's socket.
pub open spec fn forward_arguments(serial: Seq<char>, port: u16) -> Seq<Seq<char>> {
    seq!["-s"@, serial, "forward"@, tcp_end(port), "localabstract:scrcpy"@]
}

/// The arguments that take a forward down again.
pub open spec fn removal_arguments(serial: Seq<char>, port: u16) -> Seq<Seq<char>> {
    seq!["-s"@, serial, "forward"@, "--remove"@, tcp_end(port)]
}

/// The arguments that forward a local port to the server's socket.
pub fn forward_args(serial: &str, port: u16) -> (r: Vec<String>)
    ensures
        text::views(r@) =~= forward_arguments(serial@, port),
        text::views(r@) =~= seq![
            "-s"@,
            serial@,
            "forward"@,
            tcp_end(port),
            "localabstract:scrcpy"@,
        ],
{
    vec![
        "-s".to_string(),
        serial.to_string(),
        "forward".to_string(),
        local_end(port),
        "localabstract:scrcpy".to_string(),
    ]
}

/// The arguments that take a forward down again.
pub fn remove_forward_args(serial: &str, port: u16) -> (r: Vec<String>)
    ensures
        text::views(r@) =~= removal_arguments(serial@, port),
        text::views(r@) =~= seq!["-s"@, serial@, "forward"@, "--remove"@, tcp_end(port)],
{
    vec![
        "-s".to_string(),
        serial.to_string(),
        "forward".to_string(),
        "--remove".to_string(),
        local_end(port),
    ]
}

/// What the server is asked for.
#[derive(Clone, Copy, Debug, PartialEq, Eq, Structural)]
pub struct ServerOptions {
    pub display_id: u32,
    /// Cap on the longer side; 0 is the full panel.
    pub max_size: u32,
    pub video_bit_rate: u32,
    /// Cap on the frame rate; 0 is none.
    pub max_fps: u32,
    pub audio: bool,
    pub audio_bit_rate: u32,
}

impl Default for ServerOptions {
    fn default() -> (r: Self)
        ensures
            r == (ServerOptions {
                display_id: 0,
                max_size: 0,
                video_bit_rate: 16_000_000,
                max_fps: 0,
                audio: false,
                audio_bit_rate: 128_000,
            }),
    {
        ServerOptions {
            display_id: 0,
            max_size: 0,
            video_bit_rate: 16_000_000,
            max_fps: 0,
            audio: false,
            audio_bit_rate: 128_000,
        }
    }
}

/// `key=value` for a number.
pub open spec fn setting(key: Seq<char>, value: u32) -> Seq<char> {
    key + text::decimal(value as nat)
}

/// `key`, which ends in `=`, and a number.
fn number_arg(key: &str, value: u32) -> (r: String)
    ensures
        r@ == setting(key@, value),
{
    let mut s = key.to_string();
    s.append(text::dec(value as u64).as_str());
    s
}

impl ServerOptions {
    /// The arguments that hand these options to the server.
    pub open spec fn args(self) -> Seq<Seq<char>> {
        seq![
            SCRCPY_VERSION@,
            "log_level=info"@,
            "tunnel_forward=true"@,
            "control=false"@,
            "cleanup=true"@,
            "send_device_meta=true"@,
            "send_frame_meta=true"@,
            "send_stream_meta=true"@,
            "send_dummy_byte=true"@,
            "video_codec=h264"@,
            setting("display_id="@, self.display_id),
            setting("max_size="@, self.max_size),
            setting("video_bit_rate="@, self.video_bit_rate),
            setting("max_fps="@, self.max_fps),
        ] + if self.audio {
            seq![
                "audio=true"@,
                "audio_codec=aac"@,
                setting("audio_bit_rate="@, self.audio_bit_rate),
            ]
        } else {
            seq!["audio=false"@]
        }
    }

    /// The arguments that hand these options to the server. Audio is asked for as AAC.
    pub fn to_args(&self) -> (r: Vec<String>)
        ensures
            text::views(r@) =~= self.args(),
    {
        let mut a: Vec<String> = vec![
            SCRCPY_VERSION.to_string(),
            "log_level=info".to_string(),
            "tunnel_forward=true".to_string(),
            "control=false".to_string(),
            "cleanup=true".to_string(),
            "send_device_meta=true".to_string(),
            "send_frame_meta=true".to_string(),
            "send_stream_meta=true".to_string(),
            "send_dummy_byte=true".to_string(),
            "video_codec=h264".to_string(),
            number_arg("display_id=", self.display_id),
            number_arg("max_size=", self.max_size),
            number_arg("video_bit_rate=", self.video_bit_rate),
            number_arg("max_fps=", self.max_fps),
        ];
        if self.audio {
            a.push("audio=true".to_string());
            a.push("audio_codec=aac".to_string());
            a.push(number_arg("audio_bit_rate=", self.audio_bit_rate));
        } else {
            a.push("audio=false".to_string());
        }
        a
    }
}

/// How the device's shell starts the server, up to the server's own arguments.
pub open spec fn server_launcher() -> Seq<char> {
    "CLASSPATH="@ + DEVICE_JAR_PATH@ + " app_process / com.genymobile.scrcpy.Server "@
}

/// How the device's shell starts the server, up to the server's own arguments.
fn launcher() -> (r: String)
    ensures
        r@ == server_launcher(),
{
    let mut s = "CLASSPATH=".to_string();
    s.append(DEVICE_JAR_PATH);
    s.append(" app_process / com.genymobile.scrcpy.Server ");
    s
}

/// The arguments that start the server on the device.
pub fn start_server_args(serial: &str, opts: &ServerOptions) -> (r: Vec<String>)
    ensures
        text::views(r@) =~= seq![
            "-s"@,
            serial@,
            "shell"@,
            server_launcher() + text::joined(opts.args(), " "@),
        ],
{
    let args = opts.to_args();
    let mut cmd = launcher();
    cmd.append(text::join(&args, " ").as_str());
    vec!["-s".to_string(), serial.to_string(), "shell".to_string(), cmd]
}

/// The arguments that have the server list the device's displays.
pub fn list_displays_args(serial: &str) -> (r: Vec<String>)
    ensures
        text::views(r@) =~= seq![
            "-s"@,
            serial@,
            "shell"@,
            server_launcher() + SCRCPY_VERSION@ + " log_level=info list_displays=true"@,
        ],
{
    let mut cmd = launcher();
    cmd.append(SCRCPY_VERSION);
    cmd.append(" log_level=info list_displays=true");
    vec!["-s".to_string(), serial.to_string(), "shell".to_string(), cmd]
}

/// A display of the device.
#[derive(Clone, Copy, Debug, PartialEq, Eq, Structural)]
pub struct DisplayInfo {
    pub id: u32,
    pub width: u32,
    pub height: u32,
}

impl DisplayInfo {
    /// The label of the display in a list.
    pub open spec fn labelled(self) -> Seq<char> {
        "Display "@ + text::decimal(self.id as nat) + " — "@ + text::decimal(self.width as nat)
            + "x"@ + text::decimal(self.height as nat)
    }

    /// A label for dropdowns.
    pub fn label(&self) -> (r: String)
        ensures
            r@ == self.labelled(),
    {
        let mut s = "Display ".to_string();
        s.append(text::dec(self.id as u64).as_str());
        s.append(" — ");
        s.append(text::dec(self.width as u64).as_str());
        s.append("x");
        s.append(text::dec(self.height as u64).as_str());
        s
    }
}

/// What follows the key of a display line: `--display-id=`, or `--display=` as older servers
/// write it.
pub open spec fn display_rest(line: Seq<char>) -> Option<Seq<char>> {
    match text::strip_prefix(line, "--display-id="@) {
        Some(rest) => Some(rest),
        None => text::strip_prefix(line, "--display="@),
    }
}

/// The width and the height that `(4128x2208)` writes.
pub open spec fn dims_of(s: Seq<char>) -> Option<(u32, u32)> {
    let inner = text::skip_back(
        text::skip_front(s, CharClass::Only('(' as u32)),
        CharClass::Only(')' as u32),
    );
    match text::split_once(inner, 'x') {
        Some((w, h)) => match (text::number(w), text::number(h)) {
            (Some(width), Some(height)) => Some((width, height)),
            _ => None,
        },
        None => None,
    }
}

/// The display that the words behind the key describe: its id and its size.
pub open spec fn display_from(w: Seq<Seq<char>>) -> Option<DisplayInfo> {
    if w.len() < 2 {
        None
    } else {
        match (text::number(w[0]), dims_of(w[1])) {
            (Some(id), Some((width, height))) => Some(DisplayInfo { id, width, height }),
            _ => None,
        }
    }
}

/// The display that one line of the server's list describes.
pub open spec fn display_of(line: Seq<char>) -> Option<DisplayInfo> {
    match display_rest(text::trimmed(line)) {
        Some(rest) => display_from(text::words(rest)),
        None => None,
    }
}

/// The displays that a sequence of lines describes, in order.
pub open spec fn displays_of(ls: Seq<Seq<char>>) -> Seq<DisplayInfo>
    decreases ls.len(),
{
    if ls.len() == 0 {
        seq![]
    } else {
        match display_of(ls.last()) {
            Some(d) => displays_of(ls.drop_last()).push(d),
            None => displays_of(ls.drop_last()),
        }
    }
}

/// The width and the height that `(4128x2208)` writes.
fn parse_dims(s: &str) -> (r: Option<(u32, u32)>)
    ensures
        r == dims_of(s@),
{
    let inner = text::trim_back(
        text::trim_front(s, &CharClass::Only('(' as u32)),
        &CharClass::Only(')' as u32),
    );
    match text::cut_at(inner, 'x') {
        Some((w, h)) => match (text::parse_u32(w), text::parse_u32(h)) {
            (Some(width), Some(height)) => Some((width, height)),
            _ => None,
        },
        None => None,
    }
}

/// The display that one line describes.
fn parse_display(line: &str) -> (r: Option<DisplayInfo>)
    ensures
        r == display_of(line@),
{
    let line = text::trim(line);
    let rest = match text::after_prefix(line, "--display-id=") {
        Some(rest) => rest,
        None => match text::after_prefix(line, "--display=") {
            Some(rest) => rest,
            None => {
                return None;
            },
        },
    };
    let w = text::split_whitespace(rest);
    if w.len() < 2 {
        return None;
    }
    match (text::parse_u32(w[0]), parse_dims(w[1])) {
        (Some(id), Some((width, height))) => Some(DisplayInfo { id, width, height }),
        _ => None,
    }
}

/// The displays that the server's list describes.
pub fn parse_displays(output: &str) -> (r: Vec<DisplayInfo>)
    ensures
        r@ =~= displays_of(text::lines(output@)),
{
    let ls = text::split_lines(output);
    let ghost all = text::lines(output@);
    let mut out: Vec<DisplayInfo> = Vec::new();
    let mut i: usize = 0;
    while i < ls.len()
        invariant
            i <= ls@.len(),
            ls@.len() == all.len(),
            forall|j: int| 0 <= j < ls@.len() ==> (#[trigger] ls@[j])@ == all[j],
            out@ =~= displays_of(all.take(i as int)),
        decreases ls@.len() - i,
    {
        proof {
            assert(all.take(i + 1).drop_last() =~= all.take(i as int));
            assert(all.take(i + 1).last() == ls@[i as int]@);
        }
        if let Some(d) = parse_display(ls[i]) {
            out.push(d);
        }
        i = i + 1;
    }
    assert(all.take(all.len() as int) =~= all);
    out
}

/// The displays that the server listed in its output, on either stream; where there is none,
/// what it printed instead.
pub fn displays_or_output(output: &str) -> (r: Result<Vec<DisplayInfo>, String>)
    ensures
        ({
            let found = displays_of(text::lines(output@));
            match r {
                Ok(list) => found.len() > 0 && list@ =~= found,
                Err(e) => found.len() == 0 && e@ == "no displays parsed from server output:\n"@
                    + text::trimmed(output@),
            }
        }),
{
    let list = parse_displays(output);
    if list.len() == 0 {
        let mut e = "no displays parsed from server output:\n".to_string();
        e.append(text::trim(output));
        Err(e)
    } else {
        Ok(list)
    }
}

/// Reads the list of displays from what the server printed on its two streams.
pub fn list_displays(stdout: &[u8], stderr: &[u8]) -> (r: Result<Vec<DisplayInfo>, String>)
    ensures
        ({
            let output = text::utf8_lossy(stdout@) + text::utf8_lossy(stderr@);
            let found = displays_of(text::lines(output));
            match r {
                Ok(list) => found.len() > 0 && list@ =~= found,
                Err(e) => found.len() == 0 && e@ == "no displays parsed from server output:\n"@
                    + text::trimmed(output),
            }
        }),
{
    let mut output = text::from_utf8_lossy(stdout);
    let err = text::from_utf8_lossy(stderr);
    output.append(err.as_str());
    displays_or_output(output.as_str())
}

/// The devices that adb can talk to, in order.
pub open spec fn online_of(ds: Seq<DeviceView>) -> Seq<DeviceView>
    decreases ds.len(),
{
    if ds.len() == 0 {
        seq![]
    } else if ds.last().online() {
        online_of(ds.drop_last()).push(ds.last())
    } else {
        online_of(ds.drop_last())
    }
}

/// Those of them that are on USB, in order.
pub open spec fn online_usb_of(ds: Seq<DeviceView>) -> Seq<DeviceView>
    decreases ds.len(),
{
    if ds.len() == 0 {
        seq![]
    } else if ds.last().online() && ds.last().usb {
        online_usb_of(ds.drop_last()).push(ds.last())
    } else {
        online_usb_of(ds.drop_last())
    }
}

/// The device to use where none is named: the first on USB that adb can talk to, else the first
/// that adb can talk to.
pub open spec fn preferred(ds: Seq<DeviceView>) -> Option<DeviceView> {
    if online_usb_of(ds).len() > 0 {
        Some(online_usb_of(ds)[0])
    } else if online_of(ds).len() > 0 {
        Some(online_of(ds)[0])
    } else {
        None
    }
}

/// The index of the device to use where none is named.
pub fn preferred_device(devices: &Vec<Device>) -> (r: Option<usize>)
    ensures
        match r {
            Some(i) => i < devices@.len() && preferred(device_views(devices@)) == Some(
                devices@[i as int]@,
            ),
            None => preferred(device_views(devices@)) is None,
        },
{
    let ghost all = device_views(devices@);
    let mut usb: Option<usize> = None;
    let mut any: Option<usize> = None;
    let mut i: usize = 0;
    while i < devices.len()
        invariant
            all == device_views(devices@),
            i <= devices@.len(),
            match usb {
                Some(k) => k < i && online_usb_of(all.take(i as int)).len() > 0
                    && online_usb_of(all.take(i as int))[0] == devices@[k as int]@,
                None => online_usb_of(all.take(i as int)).len() == 0,
            },
            match any {
                Some(k) => k < i && online_of(all.take(i as int)).len() > 0 && online_of(
                    all.take(i as int),
                )[0] == devices@[k as int]@,
                None => online_of(all.take(i as int)).len() == 0,
            },
        decreases devices@.len() - i,
    {
        proof {
            assert(all.take(i + 1).drop_last() =~= all.take(i as int));
            assert(all.take(i + 1).last() == devices@[i as int]@);
        }
        if devices[i].is_online() {
            if any.is_none() {
                any = Some(i);
            }
            if devices[i].usb && usb.is_none() {
                usb = Some(i);
            }
        }
        i = i + 1;
    }
    assert(all.take(all.len() as int) =~= all);
    match usb {
        Some(k) => Some(k),
        None => any,
    }
}

/// Normalising an address again changes nothing, and it always names a port.
pub proof fn law_normalized_address_is_stable(addr: Seq<char>)
    ensures
        normalized(addr).contains(':'),
        normalized(normalized(addr)) == normalized(addr),
{
    let a = text::trimmed(addr);
    let n = normalized(addr);
    text::lemma_trimmed_is_trimmed(addr);
    reveal_strlit(":5555");
    if !a.contains(':') {
        assert(n[a.len() as int] == ':');
        assert(n.last() == '5');
        if a.len() > 0 {
            assert(n[0] == a[0]);
        }
    }
    assert(text::is_trimmed(n));
    text::lemma_trim_padding(seq![], n, seq![]);
}

/// A size as the server's list writes it.
pub open spec fn dims_text(width: u32, height: u32) -> Seq<char> {
    seq!['('] + (text::decimal(width as nat) + seq!['x'] + text::decimal(height as nat)) + seq![')']
}

/// A size in the server's list is read back.
proof fn lemma_dims(width: u32, height: u32)
    ensures
        dims_of(dims_text(width, height)) == Some((width, height)),
{
    let (w, h) = (text::decimal(width as nat), text::decimal(height as nat));
    let inner = w + seq!['x'] + h;
    let s = dims_text(width, height);
    text::lemma_decimal(width as nat);
    text::lemma_decimal(height as nat);
    assert(inner[0] == w[0] && text::is_digit(w[0]));
    assert(inner.last() == h.last() && text::is_digit(h[h.len() - 1]));
    assert(s[0] == '(' && s[1] == inner[0]);
    text::lemma_leading_is(s, CharClass::Only('(' as u32), 1);
    let t = s.skip(1);
    assert(t =~= inner + seq![')']);
    assert(t[t.len() - 1] == ')' && t[t.len() - 2] == inner.last());
    text::lemma_trailing_is(t, CharClass::Only(')' as u32), 1);
    assert(t.take(t.len() - 1) =~= inner);
    text::lemma_decimal_has_no(width as nat, 'x');
    text::lemma_split_once(w, 'x', h);
    text::law_decimal_is_read_back(width);
    text::law_decimal_is_read_back(height);
}

/// What follows the key of a display line is read back.
proof fn lemma_display_from(d: DisplayInfo, gap: Seq<char>)
    requires
        gap.len() > 0,
        text::is_blank(gap),
    ensures
        display_from(
            text::words(text::decimal(d.id as nat) + gap + dims_text(d.width, d.height)),
        ) == Some(d),
{
    let id = text::decimal(d.id as nat);
    let dims = dims_text(d.width, d.height);
    text::lemma_decimal(d.id as nat);
    text::lemma_decimal(d.width as nat);
    text::lemma_decimal(d.height as nat);
    assert forall|i: int| 0 <= i < id.len() implies !text::is_space(#[trigger] id[i]) by {
        assert(text::is_digit(id[i]));
    }
    let (w, h) = (text::decimal(d.width as nat), text::decimal(d.height as nat));
    assert forall|i: int| 0 <= i < dims.len() implies !text::is_space(#[trigger] dims[i]) by {
        if 1 <= i <= w.len() {
            assert(dims[i] == w[i - 1] && text::is_digit(w[i - 1]));
        } else if w.len() + 2 <= i < dims.len() - 1 {
            assert(dims[i] == h[i - 2 - w.len()] && text::is_digit(h[i - 2 - w.len()]));
        }
    }
    text::lemma_words_step(id, gap, dims);
    text::lemma_last_word(gap, dims);
    assert(seq![id] + seq![dims] =~= seq![id, dims]);
    lemma_dims(d.width, d.height);
    text::law_decimal_is_read_back(d.id);
}

/// A line of the server's list, in the form of either version and with any white space around and
/// inside it, gives the display that it was written for.
pub proof fn law_display_line_is_read_back(
    d: DisplayInfo,
    old_key: bool,
    before: Seq<char>,
    gap: Seq<char>,
    behind: Seq<char>,
)
    requires
        text::is_blank(before),
        text::is_blank(gap),
        gap.len() > 0,
        text::is_blank(behind),
    ensures
        ({
            let key = if old_key {
                "--display="@
            } else {
                "--display-id="@
            };
            let line = key + text::decimal(d.id as nat) + gap + dims_text(d.width, d.height);
            display_of(before + line + behind) == Some(d)
        }),
{
    reveal_strlit("--display=");
    reveal_strlit("--display-id=");
    let key = if old_key {
        "--display="@
    } else {
        "--display-id="@
    };
    let rest = text::decimal(d.id as nat) + gap + dims_text(d.width, d.height);
    let line = key + text::decimal(d.id as nat) + gap + dims_text(d.width, d.height);
    assert(line =~= key + rest);
    assert(line[0] == '-');
    assert(line.last() == dims_text(d.width, d.height).last());
    text::lemma_trim_padding(before, line, behind);
    assert(line.skip(key.len() as int) =~= rest);
    assert(key.is_prefix_of(line));
    if old_key {
        assert(line[9] == '=');
        assert("--display-id="@[9] == '-');
        assert(!"--display-id="@.is_prefix_of(line));
    }
    lemma_display_from(d, gap);
}

/// The last word that begins with `model:` names the model, wherever it stands.
proof fn lemma_model(tokens: Seq<Seq<char>>, k: int)
    requires
        forall|j: int|
            k < j < tokens.len() ==> !"model:"@.is_prefix_of(#[trigger] tokens[j]),
        -1 <= k < tokens.len(),
        k >= 0 ==> "model:"@.is_prefix_of(tokens[k]),
    ensures
        k >= 0 ==> "model:"@ + model_of(tokens) == tokens[k],
        k < 0 ==> model_of(tokens) == Seq::<char>::empty(),
    decreases tokens.len(),
{
    if tokens.len() == 0 {
    } else if k == tokens.len() - 1 {
        let t = tokens[k];
        assert("model:"@ + t.skip("model:"@.len() as int) =~= t);
    } else {
        let less = tokens.drop_last();
        assert(!"model:"@.is_prefix_of(tokens[tokens.len() - 1]));
        assert forall|j: int| k < j < less.len() implies !"model:"@.is_prefix_of(
            #[trigger] less[j],
        ) by {
            assert(less[j] == tokens[j]);
        }
        lemma_model(less, k);
    }
}

/// A line that is made of a serial, a state and any further words, with any white space between
/// them, lists a device with that serial and that state. The word behind the state that begins
/// with `model:` names the model, wherever it stands; of several it is the last, and without one
/// the model is empty. The device is on USB where its serial holds no colon.
pub proof fn law_device_line_is_read_back(
    lead: Seq<char>,
    serial: Seq<char>,
    state: Seq<char>,
    further: Seq<Seq<char>>,
    gaps: Seq<Seq<char>>,
    model: Seq<char>,
    k: int,
)
    requires
        text::is_blank(lead),
        text::is_word(serial),
        text::is_word(state),
        forall|j: int| 0 <= j < further.len() ==> text::is_word(#[trigger] further[j]),
        gaps.len() == further.len() + 2,
        text::are_gaps(gaps),
        -1 <= k < further.len(),
        k < 0 ==> model.len() == 0,
        k >= 0 ==> further[k] == "model:"@ + model,
        forall|j: int|
            k < j < further.len() ==> !"model:"@.is_prefix_of(#[trigger] further[j]),
    ensures
        device_of(lead + text::spaced(seq![serial, state] + further, gaps)) == Some(
            DeviceView {
                serial,
                model,
                state,
                usb: forall|i: int| 0 <= i < serial.len() ==> serial[i] != ':',
            },
        ),
{
    let ws = seq![serial, state] + further;
    assert forall|i: int| 0 <= i < ws.len() implies text::is_word(#[trigger] ws[i]) by {
        if i >= 2 {
            assert(ws[i] == further[i - 2]);
        }
    }
    text::law_words_are_found(lead, ws, gaps);
    assert(ws.skip(2) =~= further);
    if k >= 0 {
        assert("model:"@.is_prefix_of(further[k])) by {
            assert(further[k].subrange(0, "model:"@.len() as int) =~= "model:"@);
        }
    }
    lemma_model(further, k);
    if k >= 0 {
        let found = model_of(further);
        assert(("model:"@ + found).skip("model:"@.len() as int) =~= found);
        assert(("model:"@ + model).skip("model:"@.len() as int) =~= model);
    } else {
        assert(model_of(further) =~= model);
        if further.len() == 0 {
            assert(model =~= seq![]);
        }
    }
}

/// A line that is a serial alone lists a device without state and model, and a blank line lists
/// none.
pub proof fn law_short_device_lines(lead: Seq<char>, serial: Seq<char>, behind: Seq<char>)
    requires
        text::is_blank(lead),
        text::is_word(serial),
        text::is_blank(behind),
    ensures
        device_of(lead + serial + behind) == Some(
            DeviceView {
                serial,
                model: seq![],
                state: seq![],
                usb: forall|i: int| 0 <= i < serial.len() ==> serial[i] != ':',
            },
        ),
        device_of(lead) is None,
{
    let gaps = seq![behind];
    text::law_words_are_found(lead, seq![serial], gaps);
    assert(seq![serial].drop_first() =~= seq![]);
    assert(text::spaced(seq![], gaps.drop_first()) =~= seq![]);
    assert(lead + text::spaced(seq![serial], gaps) =~= lead + serial + behind);
    text::law_words_are_found(lead, seq![], seq![]);
    assert(lead + text::spaced(seq![], seq![]) =~= lead);
}

/// Two lists of lines one behind the other give the devices of the first, then those of the
/// second.
proof fn lemma_device_lists_join(a: Seq<Seq<char>>, b: Seq<Seq<char>>)
    ensures
        devices_of(a + b) == devices_of(a) + devices_of(b),
    decreases b.len(),
{
    if b.len() == 0 {
        assert(a + b =~= a);
        assert(devices_of(a) + devices_of(b) =~= devices_of(a));
    } else {
        lemma_device_lists_join(a, b.drop_last());
        assert((a + b).drop_last() =~= a + b.drop_last());
        assert(devices_of(a + b) =~= devices_of(a) + devices_of(b));
    }
}

/// The output is a heading and then one device on each line: each line that holds a word gives
/// the next device, a blank line gives none, and nothing else is in the list.
pub proof fn law_device_list_is_read_line_by_line(
    heading: Seq<char>,
    ls: Seq<Seq<char>>,
    line: Seq<char>,
)
    requires
        text::is_line(heading),
        text::is_line(line),
        forall|i: int| 0 <= i < ls.len() ==> text::is_line(#[trigger] ls[i]),
    ensures
        devices_in(text::unlines(seq![heading])) == Seq::<DeviceView>::empty(),
        devices_in(text::unlines((seq![heading] + ls).push(line))) == devices_in(
            text::unlines(seq![heading] + ls),
        ) + match device_of(line) {
            Some(d) => seq![d],
            None => seq![],
        },
        text::is_blank(line) ==> device_of(line) is None,
        !text::is_blank(line) ==> device_of(line) is Some,
{
    let all = seq![heading] + ls;
    text::law_lines_are_found(seq![heading]);
    text::law_lines_are_found(all);
    assert forall|i: int| 0 <= i < all.push(line).len() implies text::is_line(
        #[trigger] all.push(line)[i],
    ) by {
        if 1 <= i < all.len() {
            assert(all.push(line)[i] == ls[i - 1]);
        }
    }
    text::law_lines_are_found(all.push(line));
    assert(seq![heading].skip(1) =~= seq![]);
    assert(all.skip(1) =~= ls);
    assert(all.push(line).skip(1) =~= ls + seq![line]);
    lemma_device_lists_join(ls, seq![line]);
    assert(seq![line].drop_last() =~= seq![]);
    assert(devices_of(seq![]) =~= seq![]);
    assert(devices_of(seq![line]) =~= match device_of(line) {
        Some(d) => seq![d],
        None => seq![],
    });
    let t = text::skip_front(line, CharClass::Space);
    text::lemma_leading_bound(line, CharClass::Space);
    if text::is_blank(line) {
        text::lemma_leading_is(line, CharClass::Space, line.len());
        assert(t =~= seq![]);
    } else {
        let i = choose|i: int| 0 <= i < line.len() && !text::is_space(line[i]);
        let n = text::leading(line, CharClass::Space);
        if n == line.len() {
            assert(CharClass::Space.has(line[i]));
        }
        assert(t[0] == line[n as int]);
        text::lemma_leading_bound(t, CharClass::Word);
        assert(CharClass::Word.has(t[0]));
        assert(text::words(line).len() > 0);
    }
}

/// The display list is read line by line: each line that describes a display gives the next one,
/// a line that does not begin with one of the two keys gives none, and nothing else is in the
/// list.
pub proof fn law_display_list_is_read_line_by_line(ls: Seq<Seq<char>>, line: Seq<char>)
    requires
        text::is_line(line),
        forall|i: int| 0 <= i < ls.len() ==> text::is_line(#[trigger] ls[i]),
    ensures
        displays_of(text::lines(seq![])) == Seq::<DisplayInfo>::empty(),
        displays_of(text::lines(text::unlines(ls.push(line)))) == displays_of(
            text::lines(text::unlines(ls)),
        ) + match display_of(line) {
            Some(d) => seq![d],
            None => seq![],
        },
        !"--display"@.is_prefix_of(text::trimmed(line)) ==> display_of(line) is None,
{
    text::law_lines_are_found(ls);
    text::law_lines_are_found(ls.push(line));
    assert(ls.push(line).drop_last() =~= ls);
    assert(displays_of(ls.push(line)) =~= displays_of(ls) + match display_of(line) {
        Some(d) => seq![d],
        None => seq![],
    });
    reveal_strlit("--display");
    reveal_strlit("--display-id=");
    reveal_strlit("--display=");
    let t = text::trimmed(line);
    if "--display-id="@.is_prefix_of(t) {
        assert("--display"@ =~= t.subrange(0, 9)) by {
            assert("--display-id="@.subrange(0, 9) =~= "--display"@);
            assert(t.subrange(0, 13).subrange(0, 9) =~= t.subrange(0, 9));
        }
    }
    if "--display="@.is_prefix_of(t) {
        assert("--display"@ =~= t.subrange(0, 9)) by {
            assert("--display="@.subrange(0, 9) =~= "--display"@);
            assert(t.subrange(0, 10).subrange(0, 9) =~= t.subrange(0, 9));
        }
    }
}

/// An address is the typed one without the white space around it: as it stands where it names a
/// port, and else with the port of wireless adb behind it.
pub proof fn law_address_keeps_its_port(before: Seq<char>, addr: Seq<char>, behind: Seq<char>)
    requires
        text::is_blank(before),
        text::is_blank(behind),
        text::is_word(addr),
    ensures
        addr.contains(':') ==> normalized(before + addr + behind) == addr,
        !addr.contains(':') ==> normalized(before + addr + behind) == addr + ":5555"@,
        text::split_once(normalized(before + addr + behind), ':') matches Some((host, port))
            && (addr.contains(':') || host == addr && text::number(port) == Some(5555u32)),
{
    text::lemma_trim_padding(before, addr, behind);
    let n = normalized(before + addr + behind);
    reveal_strlit(":5555");
    if addr.contains(':') {
        let class = CharClass::Except(':' as u32);
        text::lemma_leading_bound(addr, class);
        let i = choose|i: int| 0 <= i < addr.len() && addr[i] == ':';
        if text::leading(addr, class) == addr.len() {
            assert(class.has(addr[i]));
        }
    } else {
        let port: Seq<char> = seq!['5', '5', '5', '5'];
        assert(n =~= addr + seq![':'] + port);
        text::lemma_split_once(addr, ':', port);
        text::law_number_grows_by_digits(seq!['5'], '5');
        text::law_number_grows_by_digits(seq!['5', '5'], '5');
        text::law_number_grows_by_digits(seq!['5', '5', '5'], '5');
        assert(seq!['5'].push('5') =~= seq!['5', '5']);
        assert(seq!['5', '5'].push('5') =~= seq!['5', '5', '5']);
        assert(seq!['5', '5', '5'].push('5') =~= port);
    }
}

/// A reply with one of the four words of failure anywhere in it is a complaint and is handed on
/// whole; any other reply is the status line, and silence is taken for success.
pub proof fn law_failures_are_told(addr: Seq<char>, reply: Seq<char>, low: Seq<char>)
    ensures
        forall|a: Seq<char>, b: Seq<char>, word: Seq<char>|
            (word == "fail"@ || word == "cannot"@ || word == "unable"@ || word == "refused"@)
                && low == #[trigger] (a + word + b) ==> connect_outcome(addr, reply, low) == Err::<
                Seq<char>,
                Seq<char>,
            >(reply),
        (connect_outcome(addr, reply, low) is Err) ==> exists|
            a: Seq<char>,
            b: Seq<char>,
            word: Seq<char>,
        |
            (word == "fail"@ || word == "cannot"@ || word == "unable"@ || word == "refused"@)
                && low == #[trigger] (a + word + b),
        connect_outcome(addr, reply, low) is Ok && reply.len() > 0 ==> connect_outcome(
            addr,
            reply,
            low,
        ) == Ok::<Seq<char>, Seq<char>>(reply),
        reply.len() == 0 && low.len() == 0 ==> connect_outcome(addr, reply, low) == Ok::<
            Seq<char>,
            Seq<char>,
        >("connected to "@ + addr),
{
    text::law_occurs_where_it_stands(low, "fail"@);
    text::law_occurs_where_it_stands(low, "cannot"@);
    text::law_occurs_where_it_stands(low, "unable"@);
    text::law_occurs_where_it_stands(low, "refused"@);
    reveal_strlit("fail");
    reveal_strlit("cannot");
    reveal_strlit("unable");
    reveal_strlit("refused");
    if connect_outcome(addr, reply, low) is Err {
        let word = if text::occurs(low, "fail"@) {
            "fail"@
        } else if text::occurs(low, "cannot"@) {
            "cannot"@
        } else if text::occurs(low, "unable"@) {
            "unable"@
        } else {
            "refused"@
        };
        let (a, b) = choose|a: Seq<char>, b: Seq<char>| low == #[trigger] (a + word + b);
        assert(low == a + word + b);
    }
}

/// What adb printed is its reply, without the white space around it, and what it complained of
/// counts only where it printed nothing but white space.
pub proof fn law_reply_is_what_was_printed(
    before: Seq<char>,
    said: Seq<char>,
    behind: Seq<char>,
    other: Seq<char>,
)
    requires
        text::is_blank(before),
        text::is_blank(behind),
        said.len() > 0,
        text::is_trimmed(said),
    ensures
        reply_of(before + said + behind, other) == said,
        reply_of(before, before + said + behind) == said,
        reply_of(before, behind) == Seq::<char>::empty(),
{
    text::lemma_trim_padding(before, said, behind);
    text::lemma_trim_blank(before);
    text::lemma_trim_blank(behind);
}

/// The local end of a forward is `tcp:` and the port, which is read back; so two ports never share
/// an end.
pub proof fn law_forwarded_port_is_read_back(port: u16)
    ensures
        text::strip_prefix(tcp_end(port), "tcp:"@) matches Some(n) && text::number(n) == Some(
            port as u32,
        ),
{
    let n = text::decimal(port as nat);
    text::law_decimal_is_read_back(port as u32);
    assert(tcp_end(port).subrange(0, "tcp:"@.len() as int) =~= "tcp:"@);
    assert(tcp_end(port).skip("tcp:"@.len() as int) =~= n);
}

/// Whether exactly one of the arguments begins with `key`, and a number that reads as `value`
/// follows it there.
pub open spec fn says_number(args: Seq<Seq<char>>, key: Seq<char>, value: u32) -> bool {
    exists|i: int|
        0 <= i < args.len() && key.is_prefix_of(#[trigger] args[i]) && text::number(
            args[i].skip(key.len() as int),
        ) == Some(value) && says_nowhere_but(args, key, i)
}

/// Whether exactly one of the arguments begins with `key`, and `value` follows it there.
pub open spec fn says_text(args: Seq<Seq<char>>, key: Seq<char>, value: Seq<char>) -> bool {
    exists|i: int|
        0 <= i < args.len() && #[trigger] args[i] == key + value && says_nowhere_but(args, key, i)
}

/// Whether no argument but that at index `i` begins with `key`.
pub open spec fn says_nowhere_but(args: Seq<Seq<char>>, key: Seq<char>, i: int) -> bool {
    forall|j: int| 0 <= j < args.len() && j != i ==> !key.is_prefix_of(#[trigger] args[j])
}

/// `s` does not begin with `key`, where the two differ at index `at`.
proof fn lemma_differs(key: Seq<char>, s: Seq<char>, at: int)
    requires
        0 <= at < key.len(),
        at < s.len() ==> s[at] != key[at],
    ensures
        !key.is_prefix_of(s),
{
    if key.is_prefix_of(s) {
        assert(s.subrange(0, key.len() as int)[at] == s[at]);
    }
}

/// A number behind a key is read back.
proof fn lemma_setting(key: Seq<char>, value: u32)
    ensures
        key.is_prefix_of(setting(key, value)),
        text::number(setting(key, value).skip(key.len() as int)) == Some(value),
{
    let s = setting(key, value);
    text::law_decimal_is_read_back(value);
    assert(s.subrange(0, key.len() as int) =~= key);
    assert(s.skip(key.len() as int) =~= text::decimal(value as nat));
}

/// Where the arguments differ from one another: in their first letter, or in one a little further
/// on.
proof fn lemma_first_letters(o: ServerOptions)
    ensures
        ({
            let a = o.args();
            &&& a.len() == if o.audio {
                17int
            } else {
                15int
            }
            &&& forall|j: int| 0 <= j < a.len() ==> (#[trigger] a[j]).len() > 2
            &&& a[0][0] == '4' && a[1][0] == 'l' && a[2][0] == 't'
            &&& a[3][0] == 'c' && a[3][1] == 'o' && a[4][0] == 'c' && a[4][1] == 'l'
            &&& a[5][0] == 's' && a[6][0] == 's' && a[7][0] == 's' && a[8][0] == 's'
            &&& a[9].len() > 6 && a[9][0] == 'v' && a[9][6] == 'c'
            &&& a[10][0] == 'd'
            &&& a[11].len() > 4 && a[11][0] == 'm' && a[11][4] == 's'
            &&& a[12].len() > 6 && a[12][0] == 'v' && a[12][6] == 'b'
            &&& a[13].len() > 4 && a[13][0] == 'm' && a[13][4] == 'f'
            &&& a[14].len() > 6 && a[14][0] == 'a' && a[14][5] == '='
            &&& o.audio ==> a[15].len() > 6 && a[15][0] == 'a' && a[15][5] == '_' && a[15][6] == 'c'
            &&& o.audio ==> a[16].len() > 6 && a[16][0] == 'a' && a[16][5] == '_' && a[16][6] == 'b'
        }),
{
    let a = o.args();
    reveal_strlit("4.0");
    reveal_strlit("log_level=info");
    reveal_strlit("tunnel_forward=true");
    reveal_strlit("control=false");
    reveal_strlit("cleanup=true");
    reveal_strlit("send_device_meta=true");
    reveal_strlit("send_frame_meta=true");
    reveal_strlit("send_stream_meta=true");
    reveal_strlit("send_dummy_byte=true");
    reveal_strlit("video_codec=h264");
    reveal_strlit("display_id=");
    reveal_strlit("max_size=");
    reveal_strlit("video_bit_rate=");
    reveal_strlit("max_fps=");
    reveal_strlit("audio=true");
    reveal_strlit("audio=false");
    reveal_strlit("audio_codec=aac");
    reveal_strlit("audio_bit_rate=");
    assert(a[0] == "4.0"@ && a[1] == "log_level=info"@ && a[2] == "tunnel_forward=true"@);
    assert(a[3] == "control=false"@ && a[4] == "cleanup=true"@);
    assert(a[5] == "send_device_meta=true"@ && a[6] == "send_frame_meta=true"@);
    assert(a[7] == "send_stream_meta=true"@ && a[8] == "send_dummy_byte=true"@);
}

/// The four numbers that the picture depends on are read back.
#[verifier::spinoff_prover]
proof fn lemma_numbers_are_read_back(o: ServerOptions)
    ensures
        says_number(o.args(), "display_id="@, o.display_id),
        says_number(o.args(), "max_size="@, o.max_size),
        says_number(o.args(), "video_bit_rate="@, o.video_bit_rate),
        says_number(o.args(), "max_fps="@, o.max_fps),
{
    let args = o.args();
    lemma_first_letters(o);
    reveal_strlit("display_id=");
    lemma_setting("display_id="@, o.display_id);
    assert forall|j: int| 0 <= j < args.len() && j != 10 implies !"display_id="@.is_prefix_of(
        #[trigger] args[j],
    ) by {
        lemma_differs("display_id="@, args[j], 0);
    }
    assert(args[10] == setting("display_id="@, o.display_id));
    reveal_strlit("max_size=");
    lemma_setting("max_size="@, o.max_size);
    assert forall|j: int| 0 <= j < args.len() && j != 11 implies !"max_size="@.is_prefix_of(
        #[trigger] args[j],
    ) by {
        lemma_differs(
            "max_size="@,
            args[j],
            if j == 13 {
            4
        } else {
            0
        },
        );
    }
    assert(args[11] == setting("max_size="@, o.max_size));
    reveal_strlit("video_bit_rate=");
    lemma_setting("video_bit_rate="@, o.video_bit_rate);
    assert forall|j: int| 0 <= j < args.len() && j != 12 implies !"video_bit_rate="@.is_prefix_of(
        #[trigger] args[j],
    ) by {
        lemma_differs(
            "video_bit_rate="@,
            args[j],
            if j == 9 {
            6
        } else {
            0
        },
        );
    }
    assert(args[12] == setting("video_bit_rate="@, o.video_bit_rate));
    reveal_strlit("max_fps=");
    lemma_setting("max_fps="@, o.max_fps);
    assert forall|j: int| 0 <= j < args.len() && j != 13 implies !"max_fps="@.is_prefix_of(
        #[trigger] args[j],
    ) by {
        lemma_differs(
            "max_fps="@,
            args[j],
            if j == 11 {
            4
        } else {
            0
        },
        );
    }
    assert(args[13] == setting("max_fps="@, o.max_fps));
}

/// What is asked for about sound is read back.
#[verifier::spinoff_prover]
proof fn lemma_audio_is_read_back(o: ServerOptions)
    ensures
        says_text(o.args(), "audio="@, text::truth(o.audio)),
        o.audio ==> says_number(o.args(), "audio_bit_rate="@, o.audio_bit_rate),
        o.audio ==> says_text(o.args(), "audio_codec="@, "aac"@),
        !o.audio ==> says_nowhere_but(o.args(), "audio_"@, -1),
{
    let args = o.args();
    lemma_first_letters(o);
    reveal_strlit("audio=");
    reveal_strlit("audio=true");
    reveal_strlit("audio=false");
    reveal_strlit("true");
    reveal_strlit("false");
    assert forall|j: int| 0 <= j < args.len() && j != 14 implies !"audio="@.is_prefix_of(
        #[trigger] args[j],
    ) by {
        lemma_differs(
            "audio="@,
            args[j],
            if j > 14 {
            5
        } else {
            0
        },
        );
    }
    assert(args[14] =~= "audio="@ + text::truth(o.audio));
    reveal_strlit("audio_");
    reveal_strlit("audio_codec=");
    reveal_strlit("audio_codec=aac");
    reveal_strlit("aac");
    reveal_strlit("audio_bit_rate=");
    lemma_setting("audio_bit_rate="@, o.audio_bit_rate);
    if o.audio {
        assert forall|j: int| 0 <= j < args.len() && j != 15 implies !"audio_codec="@.is_prefix_of(
            #[trigger] args[j],
        ) by {
            lemma_differs(
                "audio_codec="@,
                args[j],
                if j == 16 {
                6
            } else if j == 14 {
                5
            } else {
                0
            },
            );
        }
        assert(args[15] =~= "audio_codec="@ + "aac"@);
        assert forall|j: int| 0 <= j < args.len() && j != 16 implies !"audio_bit_rate="@.is_prefix_of(
            #[trigger] args[j],
        ) by {
            lemma_differs(
                "audio_bit_rate="@,
                args[j],
                if j == 15 {
                6
            } else if j == 14 {
                5
            } else {
                0
            },
            );
        }
        assert(args[16] == setting("audio_bit_rate="@, o.audio_bit_rate));
    } else {
        assert forall|j: int| 0 <= j < args.len() && j != -1 implies !"audio_"@.is_prefix_of(
            #[trigger] args[j],
        ) by {
            lemma_differs(
                "audio_"@,
                args[j],
                if j == 14 {
                5
            } else {
                0
            },
            );
        }
    }
}

/// What is always asked for is read back.
#[verifier::spinoff_prover]
proof fn lemma_fixed_options_are_read_back(o: ServerOptions)
    ensures
        says_text(o.args(), "video_codec="@, "h264"@),
        says_text(o.args(), "tunnel_forward="@, "true"@),
        says_text(o.args(), "control="@, "false"@),
{
    let args = o.args();
    lemma_first_letters(o);
    reveal_strlit("video_codec=");
    reveal_strlit("h264");
    reveal_strlit("video_codec=h264");
    assert forall|j: int| 0 <= j < args.len() && j != 9 implies !"video_codec="@.is_prefix_of(
        #[trigger] args[j],
    ) by {
        lemma_differs(
            "video_codec="@,
            args[j],
            if j == 12 {
            6
        } else {
            0
        },
        );
    }
    assert(args[9] =~= "video_codec="@ + "h264"@);
    reveal_strlit("tunnel_forward=");
    reveal_strlit("true");
    reveal_strlit("tunnel_forward=true");
    assert forall|j: int| 0 <= j < args.len() && j != 2 implies !"tunnel_forward="@.is_prefix_of(
        #[trigger] args[j],
    ) by {
        lemma_differs("tunnel_forward="@, args[j], 0);
    }
    assert(args[2] =~= "tunnel_forward="@ + "true"@);
    reveal_strlit("control=");
    reveal_strlit("false");
    reveal_strlit("control=false");
    assert forall|j: int| 0 <= j < args.len() && j != 3 implies !"control="@.is_prefix_of(
        #[trigger] args[j],
    ) by {
        lemma_differs(
            "control="@,
            args[j],
            if j == 4 {
            1
        } else {
            0
        },
        );
    }
    assert(args[3] =~= "control="@ + "false"@);
}

/// The options are read back from the arguments: behind each key, which stands there once, is
/// what was asked for.
pub proof fn law_options_are_read_back(o: ServerOptions)
    ensures
        o.args()[0] == "4.0"@,
        says_number(o.args(), "display_id="@, o.display_id),
        says_number(o.args(), "max_size="@, o.max_size),
        says_number(o.args(), "video_bit_rate="@, o.video_bit_rate),
        says_number(o.args(), "max_fps="@, o.max_fps),
        says_text(o.args(), "audio="@, text::truth(o.audio)),
        o.audio ==> says_number(o.args(), "audio_bit_rate="@, o.audio_bit_rate),
        o.audio ==> says_text(o.args(), "audio_codec="@, "aac"@),
        !o.audio ==> says_nowhere_but(o.args(), "audio_"@, -1),
        says_text(o.args(), "video_codec="@, "h264"@),
        says_text(o.args(), "tunnel_forward="@, "true"@),
        says_text(o.args(), "control="@, "false"@),
{
    lemma_numbers_are_read_back(o);
    lemma_audio_is_read_back(o);
    lemma_fixed_options_are_read_back(o);
}

/// The first of a list, where it has the property, and else the first of the rest.
proof fn lemma_online_front(ds: Seq<DeviceView>)
    requires
        ds.len() > 0,
    ensures
        online_of(ds) == if ds[0].online() {
            seq![ds[0]] + online_of(ds.drop_first())
        } else {
            online_of(ds.drop_first())
        },
        online_usb_of(ds) == if ds[0].online() && ds[0].usb {
            seq![ds[0]] + online_usb_of(ds.drop_first())
        } else {
            online_usb_of(ds.drop_first())
        },
    decreases ds.len(),
{
    let rest = ds.drop_first();
    if ds.len() == 1 {
        assert(ds.drop_last() =~= seq![]);
        assert(rest =~= seq![]);
        assert(online_of(ds.drop_last()) =~= seq![]);
        assert(online_usb_of(ds.drop_last()) =~= seq![]);
        assert(online_of(ds) =~= if ds[0].online() {
            seq![ds[0]] + online_of(rest)
        } else {
            online_of(rest)
        });
        assert(online_usb_of(ds) =~= if ds[0].online() && ds[0].usb {
            seq![ds[0]] + online_usb_of(rest)
        } else {
            online_usb_of(rest)
        });
    } else {
        lemma_online_front(ds.drop_last());
        assert(ds.drop_last().drop_first() =~= rest.drop_last());
        assert(online_of(ds) =~= if ds[0].online() {
            seq![ds[0]] + online_of(rest)
        } else {
            online_of(rest)
        });
        assert(online_usb_of(ds) =~= if ds[0].online() && ds[0].usb {
            seq![ds[0]] + online_usb_of(rest)
        } else {
            online_usb_of(rest)
        });
    }
}

/// What is listed as on USB is on USB, and where nothing is, no device is.
proof fn lemma_usb_members(ds: Seq<DeviceView>)
    ensures
        forall|i: int| 0 <= i < online_usb_of(ds).len() ==> (#[trigger] online_usb_of(ds)[i]).usb,
        online_usb_of(ds).len() == 0 ==> forall|i: int|
            0 <= i < online_of(ds).len() ==> !(#[trigger] online_of(ds)[i]).usb,
    decreases ds.len(),
{
    if ds.len() > 0 {
        let head = ds.drop_last();
        lemma_usb_members(head);
        if online_usb_of(ds).len() == 0 {
            let (all, some) = (online_of(ds), online_of(head));
            assert forall|i: int| 0 <= i < all.len() implies !(#[trigger] all[i]).usb by {
                if i < some.len() {
                    assert(all[i] == some[i]);
                } else {
                    assert(all[i] == ds.last());
                }
            }
        }
    }
}

/// Whether the device at index `i` is the one to use: its state is `device`, and of the others of
/// which that holds none is on USB where it is not, and none of its kind is listed before it.
pub open spec fn first_choice(ds: Seq<DeviceView>, i: int) -> bool {
    0 <= i < ds.len() && ds[i].state == "device"@ && forall|j: int|
        0 <= j < ds.len() && (#[trigger] ds[j]).state == "device"@ ==> (ds[i].usb && !ds[j].usb) || (
        ds[i].usb == ds[j].usb && i <= j)
}

/// The device to use is one of the list whose state is `device`. One on USB comes before any on
/// the network, and of two alike the one that is listed first; there is none only where no state
/// is `device`.
pub proof fn law_preferred_device_is_first_of_its_kind(ds: Seq<DeviceView>)
    ensures
        match preferred(ds) {
            Some(d) => exists|i: int| #[trigger] first_choice(ds, i) && ds[i] == d,
            None => forall|j: int| 0 <= j < ds.len() ==> (#[trigger] ds[j]).state != "device"@,
        },
    decreases ds.len(),
{
    if ds.len() > 0 {
        let rest = ds.drop_first();
        lemma_online_front(ds);
        lemma_usb_members(rest);
        law_preferred_device_is_first_of_its_kind(rest);
        assert forall|j: int| 1 <= j < ds.len() implies #[trigger] ds[j] == rest[j - 1] by {}
        match preferred(rest) {
            Some(d) => {
                let k = choose|i: int| #[trigger] first_choice(rest, i) && rest[i] == d;
                if ds[0].online() && (ds[0].usb || !d.usb) {
                    assert(preferred(ds) == Some(ds[0]));
                    assert(first_choice(ds, 0));
                } else {
                    assert(ds[k + 1] == d);
                    assert(first_choice(ds, k + 1));
                }
            },
            None => {
                if ds[0].online() {
                    assert(first_choice(ds, 0));
                }
            },
        }
    }
}

/// Each of the server's arguments is one word to the device's shell.
#[verifier::spinoff_prover]
proof fn lemma_args_are_words(o: ServerOptions)
    ensures
        forall|i: int| 0 <= i < o.args().len() ==> text::is_word(#[trigger] o.args()[i]),
{
    let args = o.args();
    lemma_fixed_words();
    lemma_setting_is_word("display_id="@, o.display_id);
    lemma_setting_is_word("max_size="@, o.max_size);
    lemma_setting_is_word("video_bit_rate="@, o.video_bit_rate);
    lemma_setting_is_word("max_fps="@, o.max_fps);
    lemma_setting_is_word("audio_bit_rate="@, o.audio_bit_rate);
}

/// A number behind a key that is a word is one too.
proof fn lemma_setting_is_word(key: Seq<char>, value: u32)
    requires
        text::is_word(key),
    ensures
        text::is_word(setting(key, value)),
{
    let (s, n) = (setting(key, value), text::decimal(value as nat));
    text::lemma_decimal_is_word(value as nat);
    assert forall|i: int| 0 <= i < s.len() implies !text::is_space(#[trigger] s[i]) by {
        if i < key.len() {
            assert(s[i] == key[i]);
        } else {
            assert(s[i] == n[i - key.len()]);
        }
    }
}

/// The words that do not depend on the options.
#[verifier::spinoff_prover]
proof fn lemma_fixed_words()
    ensures
        text::is_word("4.0"@),
        text::is_word("log_level=info"@),
        text::is_word("tunnel_forward=true"@),
        text::is_word("control=false"@),
        text::is_word("cleanup=true"@),
        text::is_word("send_device_meta=true"@),
        text::is_word("send_frame_meta=true"@),
        text::is_word("send_stream_meta=true"@),
        text::is_word("send_dummy_byte=true"@),
        text::is_word("video_codec=h264"@),
        text::is_word("display_id="@),
        text::is_word("max_size="@),
        text::is_word("video_bit_rate="@),
        text::is_word("max_fps="@),
        text::is_word("audio=true"@),
        text::is_word("audio=false"@),
        text::is_word("audio_codec=aac"@),
        text::is_word("audio_bit_rate="@),
{
    reveal_strlit("4.0");
    reveal_strlit("log_level=info");
    reveal_strlit("tunnel_forward=true");
    reveal_strlit("control=false");
    reveal_strlit("cleanup=true");
    reveal_strlit("send_device_meta=true");
    reveal_strlit("send_frame_meta=true");
    reveal_strlit("send_stream_meta=true");
    reveal_strlit("send_dummy_byte=true");
    reveal_strlit("video_codec=h264");
    reveal_strlit("display_id=");
    reveal_strlit("max_size=");
    reveal_strlit("video_bit_rate=");
    reveal_strlit("max_fps=");
    reveal_strlit("audio=true");
    reveal_strlit("audio=false");
    reveal_strlit("audio_codec=aac");
    reveal_strlit("audio_bit_rate=");
}

/// The words that start the server, up to its own arguments.
#[verifier::spinoff_prover]
proof fn lemma_launcher_words()
    ensures
        ({
            let ws = seq![
                "CLASSPATH="@ + DEVICE_JAR_PATH@,
                "app_process"@,
                "/"@,
                "com.genymobile.scrcpy.Server"@,
            ];
            &&& server_launcher() == text::joined(ws, seq![' ']) + seq![' ']
            &&& forall|i: int| 0 <= i < 4 ==> text::is_word(#[trigger] ws[i])
        }),
{
    reveal_strlit("CLASSPATH=");
    reveal_strlit("/data/local/tmp/scrcpy-server.jar");
    reveal_strlit("app_process");
    reveal_strlit("/");
    reveal_strlit("com.genymobile.scrcpy.Server");
    reveal_strlit(" app_process / com.genymobile.scrcpy.Server ");
    let sep = seq![' '];
    let first = "CLASSPATH="@ + DEVICE_JAR_PATH@;
    let s1 = seq![first];
    let s2 = s1.push("app_process"@);
    let s3 = s2.push("/"@);
    let s4 = s3.push("com.genymobile.scrcpy.Server"@);
    text::lemma_joined_push(s1, sep, "app_process"@);
    text::lemma_joined_push(s2, sep, "/"@);
    text::lemma_joined_push(s3, sep, "com.genymobile.scrcpy.Server"@);
    let ws = seq![first, "app_process"@, "/"@, "com.genymobile.scrcpy.Server"@];
    assert(s4 =~= ws);
    let tail = sep + "app_process"@ + sep + "/"@ + sep + "com.genymobile.scrcpy.Server"@ + sep;
    assert(tail =~= " app_process / com.genymobile.scrcpy.Server "@);
    assert(text::joined(ws, sep) + sep =~= first + tail);
}

/// To the device's shell the command that starts the server is the jar, the program, its two
/// arguments, and then the options, each of them a word of its own.
pub proof fn law_server_gets_its_arguments(o: ServerOptions)
    ensures
        text::words(server_launcher() + text::joined(o.args(), " "@)) == seq![
            "CLASSPATH="@ + DEVICE_JAR_PATH@,
            "app_process"@,
            "/"@,
            "com.genymobile.scrcpy.Server"@,
        ] + o.args(),
{
    reveal_strlit(" ");
    assert(" "@ =~= seq![' ']);
    let ws = seq![
        "CLASSPATH="@ + DEVICE_JAR_PATH@,
        "app_process"@,
        "/"@,
        "com.genymobile.scrcpy.Server"@,
    ];
    lemma_launcher_words();
    lemma_args_are_words(o);
    let all = ws + o.args();
    assert forall|i: int| 0 <= i < all.len() implies text::is_word(#[trigger] all[i]) by {
        if i < 4 {
            assert(all[i] == ws[i]);
        } else {
            assert(all[i] == o.args()[i - 4]);
        }
    }
    text::lemma_joined_lists(ws, o.args(), seq![' ']);
    text::law_words_one_space_apart(all);
}

/// A device is labelled by its model, or as a device where that is empty, and then by how it is
/// connected: a device on the network by its serial, which tells two of one model apart.
pub proof fn law_device_label_tells_model_and_way(d: DeviceView)
    ensures
        ({
            let name = if d.model.len() > 0 {
                d.model
            } else {
                "device"@
            };
            let rest = d.labelled().skip(name.len() as int);
            &&& name.is_prefix_of(d.labelled())
            &&& d.usb ==> rest == " (USB)"@
            &&& !d.usb ==> rest.len() == d.serial.len() + 3 && rest.subrange(
                2,
                2int + d.serial.len(),
            ) == d.serial
        }),
{
    let name = if d.model.len() > 0 {
        d.model
    } else {
        "device"@
    };
    reveal_strlit(" (");
    reveal_strlit(")");
    let label = d.labelled();
    assert(label.subrange(0, name.len() as int) =~= name);
    let rest = label.skip(name.len() as int);
    if d.usb {
        assert(rest =~= " (USB)"@);
    } else {
        assert(rest =~= " ("@ + d.serial + ")"@);
        assert(rest.subrange(2, 2int + d.serial.len()) =~= d.serial);
    }
}

/// The id and the size of a display are read back from its label.
pub proof fn law_display_label_is_read_back(d: DisplayInfo)
    ensures
        text::split_once(d.labelled().skip(8), ' ') matches Some((id, rest)) && text::number(id)
            == Some(d.id) && (text::split_once(rest.skip(2), 'x') matches Some((w, h))
            && text::number(w) == Some(d.width) && text::number(h) == Some(d.height)),
{
    let (id, w, h) = (
        text::decimal(d.id as nat),
        text::decimal(d.width as nat),
        text::decimal(d.height as nat),
    );
    reveal_strlit("Display ");
    reveal_strlit(" — ");
    reveal_strlit("x");
    let rest = seq!['—', ' '] + (w + seq!['x'] + h);
    assert(d.labelled().skip(8) =~= id + seq![' '] + rest);
    assert(rest.skip(2) =~= w + seq!['x'] + h);
    text::lemma_decimal_has_no(d.id as nat, ' ');
    text::lemma_decimal_has_no(d.width as nat, 'x');
    text::lemma_split_once(id, ' ', rest);
    text::lemma_split_once(w, 'x', h);
    text::law_decimal_is_read_back(d.id);
    text::law_decimal_is_read_back(d.width);
    text::law_decimal_is_read_back(d.height);
}

/// A size is read with any number of parentheses around it, or none.
pub proof fn law_parentheses_do_not_matter(
    opening: Seq<char>,
    width: u32,
    height: u32,
    closing: Seq<char>,
)
    requires
        forall|i: int| 0 <= i < opening.len() ==> #[trigger] opening[i] == '(',
        forall|i: int| 0 <= i < closing.len() ==> #[trigger] closing[i] == ')',
    ensures
        dims_of(
            opening + (text::decimal(width as nat) + seq!['x'] + text::decimal(height as nat))
                + closing,
        ) == Some((width, height)),
{
    let (w, h) = (text::decimal(width as nat), text::decimal(height as nat));
    let inner = w + seq!['x'] + h;
    let s = opening + inner + closing;
    text::lemma_decimal(width as nat);
    text::lemma_decimal(height as nat);
    assert(inner[0] == w[0] && text::is_digit(w[0]));
    assert(inner.last() == h.last() && text::is_digit(h[h.len() - 1]));
    assert forall|i: int| 0 <= i < opening.len() implies CharClass::Only('(' as u32).has(
        #[trigger] s[i],
    ) by {
        assert(s[i] == opening[i]);
    }
    assert(s[opening.len() as int] == inner[0]);
    text::lemma_leading_is(s, CharClass::Only('(' as u32), opening.len());
    let t = s.skip(opening.len() as int);
    assert(t =~= inner + closing);
    assert forall|i: int| t.len() - closing.len() <= i < t.len() implies CharClass::Only(
        ')' as u32,
    ).has(#[trigger] t[i]) by {
        assert(t[i] == closing[i - inner.len()]);
    }
    assert(t[t.len() - closing.len() - 1] == inner.last());
    text::lemma_trailing_is(t, CharClass::Only(')' as u32), closing.len());
    assert(t.take(t.len() - closing.len()) =~= inner);
    text::lemma_decimal_has_no(width as nat, 'x');
    text::lemma_split_once(w, 'x', h);
    text::law_decimal_is_read_back(width);
    text::law_decimal_is_read_back(height);
}

/// A line that begins with one of the two keys describes a display by the two words behind it: its
/// id and its size. Further words do not matter, and without either of the two there is none.
pub proof fn law_display_is_told_by_two_words(
    old_key: bool,
    before: Seq<char>,
    ws: Seq<Seq<char>>,
    gaps: Seq<Seq<char>>,
)
    requires
        text::is_blank(before),
        ws.len() > 0,
        gaps.len() == ws.len(),
        text::are_gaps(gaps),
        gaps.last().len() == 0,
        forall|i: int| 0 <= i < ws.len() ==> text::is_word(#[trigger] ws[i]),
    ensures
        ({
            let key = if old_key {
                "--display="@
            } else {
                "--display-id="@
            };
            match display_of(before + (key + text::spaced(ws, gaps))) {
                Some(d) => ws.len() >= 2 && text::number(ws[0]) == Some(d.id) && dims_of(ws[1])
                    == Some((d.width, d.height)),
                None => ws.len() < 2 || text::number(ws[0]) is None || dims_of(ws[1]) is None,
            }
        }),
{
    reveal_strlit("--display=");
    reveal_strlit("--display-id=");
    let key = if old_key {
        "--display="@
    } else {
        "--display-id="@
    };
    let rest = text::spaced(ws, gaps);
    let line = key + rest;
    text::lemma_spaced_ends(ws, gaps);
    assert(line[0] == '-');
    assert(line.last() == rest.last());
    assert(before + line + seq![] =~= before + line);
    text::lemma_trim_padding(before, line, seq![]);
    assert(line.skip(key.len() as int) =~= rest);
    assert(line.subrange(0, key.len() as int) =~= key);
    if old_key {
        assert(line[9] == '=');
        assert("--display-id="@[9] == '-');
        assert(!"--display-id="@.is_prefix_of(line)) by {
            lemma_differs("--display-id="@, line, 9);
        }
    }
    text::law_words_are_found(seq![], ws, gaps);
    assert(seq![] + rest =~= rest);
}

/// What is forwarded is taken down again by the same end, on the same device.
pub proof fn law_forward_is_taken_down(serial: Seq<char>, port: u16)
    ensures
        forward_arguments(serial, port)[1] == serial,
        removal_arguments(serial, port)[1] == serial,
        forward_arguments(serial, port)[3] == removal_arguments(serial, port)[4],
        text::strip_prefix(forward_arguments(serial, port)[3], "tcp:"@) matches Some(n)
            && text::number(n) == Some(port as u32),
{
    law_forwarded_port_is_read_back(port);
}

} // verus!
