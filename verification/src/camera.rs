//! One camera: its identity, its address, its credentials and the stream to pull.
use vstd::prelude::*;
use vstd::string::*;

use crate::error::ConfigError;
use crate::text;

verus! {

pub const DEFAULT_RTSP_PORT: u16 = 554;

/// `uuid::Uuid::new_v4`: a random identifier of version 4. Which one is left to chance; the
/// version and variant bits are always these.
#[verifier::external_body]
fn random_uuid() -> (bits: u128)
    ensures
        (bits >> 76) & 0xf == 4,
        (bits >> 62) & 3 == 2,
{
    uuid::Uuid::new_v4().as_u128()
}

/// An identifier written as 32 lower-case hexadecimal digits in five groups with hyphens
/// between them.
pub open spec fn hyphenated(bits: u128) -> Seq<char> {
    let digits = text::hex(bits as nat, 32);
    digits.subrange(0, 8) + "-"@ + digits.subrange(8, 12) + "-"@ + digits.subrange(12, 16) + "-"@
        + digits.subrange(16, 20) + "-"@ + digits.subrange(20, 32)
}

/// `uuid::Uuid::to_string`: the hyphenated form in lower case.
#[verifier::external_body]
fn uuid_to_string(bits: u128) -> (res: String)
    ensures
        res@ == hyphenated(bits),
{
    uuid::Uuid::from_u128(bits).to_string()
}

/// `uuid::Uuid::simple`, written out: the 32 digits in lower case, without hyphens.
#[verifier::external_body]
fn uuid_to_simple(bits: u128) -> (res: String)
    ensures
        res@ == text::hex(bits as nat, 32),
{
    uuid::Uuid::from_u128(bits).simple().to_string()
}

/// The value of a hexadecimal digit of either case.
pub open spec fn hex_digit_value(c: char) -> Option<nat> {
    if '0' <= c <= '9' {
        Some((c as u32 - 48) as nat)
    } else if 'a' <= c <= 'f' {
        Some((c as u32 - 87) as nat)
    } else if 'A' <= c <= 'F' {
        Some((c as u32 - 55) as nat)
    } else {
        None
    }
}

/// The number that hexadecimal digits stand for; nothing if one of them is no digit.
pub open spec fn hex_value(s: Seq<char>) -> Option<nat>
    decreases s.len(),
{
    if s.len() == 0 {
        Some(0)
    } else {
        match (hex_value(s.drop_last()), hex_digit_value(s.last())) {
            (Some(high), Some(low)) => Some(high * 16 + low),
            _ => None,
        }
    }
}

/// The 32 digits of the hyphenated form.
pub open spec fn hyphenated_digits(s: Seq<char>) -> Option<Seq<char>> {
    if s.len() == 36 && s[8] == '-' && s[13] == '-' && s[18] == '-' && s[23] == '-' {
        Some(
            s.subrange(0, 8) + s.subrange(9, 13) + s.subrange(14, 18) + s.subrange(19, 23)
                + s.subrange(24, 36),
        )
    } else {
        None
    }
}

/// The digits of an identifier in any of its four written forms: plain, hyphenated, hyphenated
/// in braces, and hyphenated after `urn:uuid:` in letters of either case.
pub open spec fn uuid_digits(s: Seq<char>) -> Option<Seq<char>> {
    if s.len() == 32 {
        Some(s)
    } else if s.len() == 38 && s[0] == '{' && s[37] == '}' {
        hyphenated_digits(s.subrange(1, 37))
    } else if s.len() == 45 && text::ascii_lower(s.subrange(0, 9)) == "urn:uuid:"@ {
        hyphenated_digits(s.subrange(9, 45))
    } else {
        hyphenated_digits(s)
    }
}

/// The identifier that a text writes, if it writes one.
pub open spec fn uuid_value(s: Seq<char>) -> Option<nat> {
    match uuid_digits(s) {
        Some(digits) => hex_value(digits),
        None => None,
    }
}

/// `uuid::Uuid::parse_str`: reads any of the four written forms and refuses everything else.
#[verifier::external_body]
fn parse_uuid(s: &str) -> (res: Option<u128>)
    ensures
        res is Some == uuid_value(s@) is Some,
        res is Some ==> res->0 == uuid_value(s@)->0,
{
    uuid::Uuid::parse_str(s).ok().map(|id| id.as_u128())
}

/// Stable identity of a camera. Slots reference cameras by id, so renaming never breaks them.
#[derive(Clone, Copy, Debug, PartialEq, Eq, Hash, PartialOrd, Ord, Structural)]
pub struct CameraId(pub u128);

impl CameraId {
    /// Whether the version and variant bits are those that every random id has.
    pub open spec fn is_random(self) -> bool {
        &&& (self.0 >> 76) & 0xf == 4
        &&& (self.0 >> 62) & 3 == 2
    }

    /// A fresh random id.
    pub fn new() -> (res: CameraId)
        ensures
            res.is_random(),
    {
        CameraId(random_uuid())
    }

    /// The first eight digits: enough to tell cameras apart in a message.
    pub open spec fn short_text(self) -> Seq<char> {
        text::hex(self.0 as nat, 32).subrange(0, 8)
    }

    /// The first eight digits: enough to tell cameras apart in a message.
    pub fn short(&self) -> (res: String)
        ensures
            res@ == self.short_text(),
    {
        let digits = uuid_to_simple(self.0);
        proof {
            lemma_hex_len(self.0 as nat, 32);
        }
        let chars = text::chars_of(digits.as_str());
        text::string_of(&chars, 0, 8)
    }

    /// The id as it is stored.
    pub fn to_text(&self) -> (res: String)
        ensures
            res@ == hyphenated(self.0),
    {
        uuid_to_string(self.0)
    }

    /// Reads an id.
    pub fn parse(s: &str) -> (res: Option<CameraId>)
        ensures
            res is Some == uuid_value(s@) is Some,
            res is Some ==> (res->0).0 == uuid_value(s@)->0,
    {
        match parse_uuid(s) {
            Some(bits) => Some(CameraId(bits)),
            None => None,
        }
    }
}

impl Default for CameraId {
    /// A fresh random id.
    fn default() -> (res: CameraId)
        ensures
            res.is_random(),
    {
        CameraId::new()
    }
}

pub proof fn lemma_hex_len(n: nat, width: nat)
    ensures
        text::hex(n, width).len() == width,
    decreases width,
{
    if width > 0 {
        lemma_hex_len(n / 16, (width - 1) as nat);
    }
}

/// `16` to the power of `width`.
spec fn pow16(width: nat) -> nat
    decreases width,
{
    if width == 0 {
        1
    } else {
        16 * pow16((width - 1) as nat)
    }
}

proof fn lemma_hex_value_of_hex(n: nat, width: nat)
    requires
        n < pow16(width),
    ensures
        hex_value(text::hex(n, width)) == Some(n),
    decreases width,
{
    if width > 0 {
        lemma_hex_value_of_hex(n / 16, (width - 1) as nat);
        let s = text::hex(n, width);
        assert(s.drop_last() =~= text::hex(n / 16, (width - 1) as nat));
        assert(s.last() == text::hex_char(n % 16));
        assert(hex_digit_value(text::hex_char(n % 16)) == Some(n % 16));
    }
}

/// Reading what was written gives back the id.
pub proof fn lemma_written_id_reads_back(bits: u128)
    ensures
        uuid_value(hyphenated(bits)) == Some(bits as nat),
{
    reveal_strlit("-");
    let digits = text::hex(bits as nat, 32);
    lemma_hex_len(bits as nat, 32);
    let s = hyphenated(bits);
    assert(s.len() == 36);
    assert(s.subrange(0, 8) + s.subrange(9, 13) + s.subrange(14, 18) + s.subrange(19, 23)
        + s.subrange(24, 36) =~= digits);
    assert(pow16(32) == 0x1_0000_0000_0000_0000_0000_0000_0000_0000) by {
        reveal_with_fuel(pow16, 33);
    }
    lemma_hex_value_of_hex(bits as nat, 32);
}

/// What is written for an id is never blank.
pub proof fn lemma_written_id_not_blank(bits: u128)
    ensures
        text::trimmed(hyphenated(bits)) == hyphenated(bits),
        hyphenated(bits).len() == 36,
{
    reveal_strlit("-");
    let digits = text::hex(bits as nat, 32);
    lemma_hex_len(bits as nat, 32);
    let s = hyphenated(bits);
    lemma_hex_chars(bits as nat, 32);
    assert(s[0] == digits[0]);
    assert(s.last() == digits[31]);
    assert(!text::whitespace(s[0]));
    assert(!text::whitespace(s.last()));
}

proof fn lemma_hex_chars(n: nat, width: nat)
    ensures
        forall|i: int|
            0 <= i < width ==> !text::whitespace(#[trigger] text::hex(n, width)[i]),
    decreases width,
{
    lemma_hex_len(n, width);
    if width > 0 {
        lemma_hex_len(n / 16, (width - 1) as nat);
        lemma_hex_chars(n / 16, (width - 1) as nat);
        assert forall|i: int| 0 <= i < width implies !text::whitespace(
            #[trigger] text::hex(n, width)[i],
        ) by {
            if i < width - 1 {
                assert(text::hex(n, width)[i] == text::hex(n / 16, (width - 1) as nat)[i]);
            }
        }
    }
}

/// A password that never shows up in a description (and therefore never in logs).
pub struct Secret(String);

impl View for Secret {
    type V = Seq<char>;

    closed spec fn view(&self) -> Seq<char> {
        self.0@
    }
}

impl Secret {
    pub fn new(value: &str) -> (res: Secret)
        ensures
            res@ == value@,
    {
        Secret(value.to_owned())
    }

    pub fn expose(&self) -> (res: &str)
        ensures
            res@ == self@,
    {
        self.0.as_str()
    }

    pub fn is_empty(&self) -> (res: bool)
        ensures
            res == (self@.len() == 0),
    {
        self.0.as_str().is_empty()
    }

    /// What is shown in place of the password.
    pub fn describe(&self) -> (res: String)
        ensures
            res@ == "***"@,
    {
        "***".to_owned()
    }
}

impl Default for Secret {
    /// No password.
    fn default() -> (res: Secret)
        ensures
            res@ == Seq::<char>::empty(),
    {
        Secret(String::new())
    }
}

impl Clone for Secret {
    fn clone(&self) -> (res: Secret)
        ensures
            res@ == self@,
    {
        Secret(self.0.clone())
    }
}

impl PartialEq for Secret {
    fn eq(&self, other: &Secret) -> (res: bool) {
        self.0 == other.0
    }
}

impl vstd::std_specs::cmp::PartialEqSpecImpl for Secret {
    open spec fn obeys_eq_spec() -> bool {
        true
    }

    open spec fn eq_spec(&self, other: &Secret) -> bool {
        self@ == other@
    }
}

/// Which RTSP stream of the camera to pull (Dahua/Intelbras `subtype`).
#[derive(Clone, Copy, Debug, PartialEq, Eq, Hash, Structural)]
pub enum StreamKind {
    Main,
    Sub,
}

impl StreamKind {
    /// The number of the stream in the camera's address.
    pub open spec fn number(self) -> u8 {
        match self {
            StreamKind::Main => 0,
            StreamKind::Sub => 1,
        }
    }

    /// The name of the stream.
    pub open spec fn name(self) -> Seq<char> {
        match self {
            StreamKind::Main => "Main"@,
            StreamKind::Sub => "Sub"@,
        }
    }

    pub fn subtype(self) -> (res: u8)
        ensures
            res == self.number(),
    {
        match self {
            StreamKind::Main => 0,
            StreamKind::Sub => 1,
        }
    }

    pub fn label(self) -> (res: &'static str)
        ensures
            res@ == self.name(),
    {
        match self {
            StreamKind::Main => "Main",
            StreamKind::Sub => "Sub",
        }
    }
}

impl Default for StreamKind {
    fn default() -> (res: StreamKind)
        ensures
            res == StreamKind::Main,
    {
        StreamKind::Main
    }
}

/// The port of a camera whose configuration names none.
pub fn default_port() -> (res: u16)
    ensures
        res == DEFAULT_RTSP_PORT,
{
    DEFAULT_RTSP_PORT
}

pub struct CameraConfig {
    pub id: CameraId,
    pub name: String,
    pub host: String,
    pub port: u16,
    pub stream: StreamKind,
    pub username: String,
    pub password: Secret,
}

/// What a [`CameraConfig`] says.
pub struct CameraView {
    pub id: CameraId,
    pub name: Seq<char>,
    pub host: Seq<char>,
    pub port: u16,
    pub stream: StreamKind,
    pub username: Seq<char>,
    pub password: Seq<char>,
}

impl View for CameraConfig {
    type V = CameraView;

    open spec fn view(&self) -> CameraView {
        CameraView {
            id: self.id,
            name: self.name@,
            host: self.host@,
            port: self.port,
            stream: self.stream,
            username: self.username@,
            password: self.password@,
        }
    }
}

impl Clone for CameraConfig {
    fn clone(&self) -> (res: CameraConfig)
        ensures
            res@ == self@,
    {
        CameraConfig {
            id: self.id,
            name: self.name.clone(),
            host: self.host.clone(),
            port: self.port,
            stream: self.stream,
            username: self.username.clone(),
            password: self.password.clone(),
        }
    }
}

impl PartialEq for CameraConfig {
    fn eq(&self, other: &CameraConfig) -> (res: bool) {
        self.id == other.id && self.name == other.name && self.host == other.host && self.port
            == other.port && self.stream == other.stream && self.username == other.username
            && self.password == other.password
    }
}

impl vstd::std_specs::cmp::PartialEqSpecImpl for CameraConfig {
    open spec fn obeys_eq_spec() -> bool {
        true
    }

    open spec fn eq_spec(&self, other: &CameraConfig) -> bool {
        self@ == other@
    }
}

impl CameraView {
    /// The camera's address, without credentials.
    pub open spec fn url(self) -> Seq<char> {
        "rtsp://"@ + text::trimmed(self.host) + ":"@ + text::decimal(self.port as nat)
            + "/cam/realmonitor?channel=1&subtype="@ + text::decimal(self.stream.number() as nat)
    }

    /// Whether a stream that runs with the one configuration must be restarted for the other.
    pub open spec fn connects_differently(self, other: CameraView) -> bool {
        ||| self.host != other.host
        ||| self.port != other.port
        ||| self.stream != other.stream
        ||| self.username != other.username
        ||| self.password != other.password
    }
}

impl CameraConfig {
    /// A camera at `host` with a fresh id, the usual port, the main stream and no credentials.
    pub fn new(name: &str, host: &str) -> (res: CameraConfig)
        ensures
            res@.name == name@,
            res@.host == host@,
            res.port == DEFAULT_RTSP_PORT,
            res.stream == StreamKind::Main,
            res@.username == Seq::<char>::empty(),
            res@.password == Seq::<char>::empty(),
            res.id.is_random(),
    {
        CameraConfig {
            id: CameraId::new(),
            name: name.to_owned(),
            host: host.to_owned(),
            port: DEFAULT_RTSP_PORT,
            stream: StreamKind::Main,
            username: String::new(),
            password: Secret::default(),
        }
    }

    /// RTSP address without credentials (they are passed separately so they never get logged).
    pub fn rtsp_url(&self) -> (res: String)
        ensures
            res@ == self@.url(),
    {
        let mut out = "rtsp://".to_owned();
        out.append(text::trim(self.host.as_str()).as_str());
        out.append(":");
        out.append(text::to_decimal(self.port as u64).as_str());
        out.append("/cam/realmonitor?channel=1&subtype=");
        out.append(text::to_decimal(self.stream.subtype() as u64).as_str());
        out
    }

    /// True when a running stream must be restarted for this change to take effect.
    pub fn connection_differs(&self, other: &CameraConfig) -> (res: bool)
        ensures
            res == self@.connects_differently(other@),
    {
        self.host != other.host || self.port != other.port || self.stream != other.stream
            || self.username != other.username || self.password != other.password
    }
}

/// A text in double quotes, with the characters escaped that do not print.
pub uninterp spec fn quoted(s: Seq<char>) -> Seq<char>;

/// The `{:?}` form of a `str` in `format!`: the result depends on the text alone.
#[verifier::external_body]
fn quote(s: &str) -> (res: String)
    ensures
        res@ == quoted(s@),
{
    format!("{:?}", s)
}

impl CameraView {
    /// The camera as it is shown in logs: everything but the password.
    pub open spec fn description(self) -> Seq<char> {
        "CameraConfig { id: "@ + self.id.short_text() + ", name: "@ + quoted(self.name)
            + ", host: "@ + quoted(self.host) + ", port: "@ + text::decimal(self.port as nat)
            + ", stream: "@ + self.stream.name() + ", username: "@ + quoted(self.username)
            + ", password: *** }"@
    }
}

impl CameraConfig {
    /// The camera as it is shown in logs: everything but the password.
    pub fn describe(&self) -> (res: String)
        ensures
            res@ == self@.description(),
    {
        let mut out = "CameraConfig { id: ".to_owned();
        out.append(self.id.short().as_str());
        out.append(", name: ");
        out.append(quote(self.name.as_str()).as_str());
        out.append(", host: ");
        out.append(quote(self.host.as_str()).as_str());
        out.append(", port: ");
        out.append(text::to_decimal(self.port as u64).as_str());
        out.append(", stream: ");
        out.append(self.stream.label());
        out.append(", username: ");
        out.append(quote(self.username.as_str()).as_str());
        out.append(", password: *** }");
        out
    }
}

/// The password is not in what is logged: cameras that differ in nothing else look the same.
pub proof fn lemma_description_hides_password(a: CameraView, b: CameraView)
    requires
        b == (CameraView { password: b.password, ..a }),
    ensures
        a.description() == b.description(),
{
}

/// The credentials are not in the address: cameras with the same host (but for the white space
/// around it), port and stream have one address, whatever else they differ in.
pub proof fn lemma_url_hides_credentials(a: CameraView, b: CameraView)
    requires
        text::trimmed(a.host) == text::trimmed(b.host),
        a.port == b.port,
        a.stream == b.stream,
    ensures
        a.url() == b.url(),
{
}

/// A change of the name alone never restarts a stream.
pub proof fn lemma_rename_keeps_connection(a: CameraView, name: Seq<char>)
    ensures
        !a.connects_differently(CameraView { name, ..a }),
{
}

/// Whether two camera names count as the same: neither the white space around them nor the case
/// of their letters tells them apart.
pub open spec fn names_match(a: Seq<char>, b: Seq<char>) -> bool {
    text::lowercase(text::trimmed(a)) == text::lowercase(text::trimmed(b))
}

/// Whether two camera names count as the same.
pub fn same_name(a: &str, b: &str) -> (res: bool)
    ensures
        res == names_match(a@, b@),
{
    let left = text::trim(a);
    let right = text::trim(b);
    left.as_str().to_lowercase() == right.as_str().to_lowercase()
}

/// Whether `host` holds something that belongs elsewhere in an address.
pub open spec fn has_address_part(host: Seq<char>) -> bool {
    host.contains('/') || host.contains(' ') || host.contains('@')
}

/// What is wrong with a camera by itself, if anything is: the first of these complaints.
pub open spec fn camera_problem(camera: CameraView) -> Option<Seq<char>> {
    let name = text::trimmed(camera.name);
    let host = text::trimmed(camera.host);
    if name.len() == 0 {
        Some("Camera name is required"@)
    } else if host.len() == 0 {
        Some("\""@ + name + "\": address (IP or hostname) is required"@)
    } else if has_address_part(host) {
        Some(
            "\""@ + name + "\": enter only the IP or hostname, without rtsp:// or a username"@,
        )
    } else if camera.port == 0 {
        Some("\""@ + name + "\": invalid port"@)
    } else {
        None
    }
}

/// Whether `res` accepts when there is no problem, and otherwise refuses with it.
pub open spec fn reports(res: Result<(), ConfigError>, problem: Option<Seq<char>>) -> bool {
    match problem {
        None => res is Ok,
        Some(reason) => res matches Err(ConfigError::Invalid(text)) && text@ == reason,
    }
}

fn contains_char(s: &str, wanted: char) -> (res: bool)
    ensures
        res == s@.contains(wanted),
{
    let chars = text::chars_of(s);
    let mut i: usize = 0;
    while i < chars.len()
        invariant
            chars@ == s@,
            i <= chars@.len(),
            forall|k: int| 0 <= k < i ==> s@[k] != wanted,
        decreases chars@.len() - i,
    {
        if chars[i] == wanted {
            assert(s@[i as int] == wanted);
            return true;
        }
        i = i + 1;
    }
    false
}

/// A complaint about the camera called `name`.
fn complaint(name: &str, rest: &str) -> (res: Result<(), ConfigError>)
    ensures
        reports(res, Some("\""@ + name@ + rest@)),
{
    let mut out = "\"".to_owned();
    out.append(name);
    out.append(rest);
    Err(ConfigError::Invalid(out))
}

/// Checks what can be checked of one camera by itself.
pub fn validate_camera(camera: &CameraConfig) -> (res: Result<(), ConfigError>)
    ensures
        reports(res, camera_problem(camera@)),
{
    let name = text::trim(camera.name.as_str());
    if name.as_str().is_empty() {
        return Err(ConfigError::Invalid("Camera name is required".to_owned()));
    }
    let host = text::trim(camera.host.as_str());
    if host.as_str().is_empty() {
        return complaint(name.as_str(), "\": address (IP or hostname) is required");
    }
    if contains_char(host.as_str(), '/') || contains_char(host.as_str(), ' ') || contains_char(
        host.as_str(),
        '@',
    ) {
        return complaint(
            name.as_str(),
            "\": enter only the IP or hostname, without rtsp:// or a username",
        );
    }
    if camera.port == 0 {
        return complaint(name.as_str(), "\": invalid port");
    }
    Ok(())
}

/// A stream that runs is restarted for any change of where or how it connects: the host, the port,
/// the stream, the user name or the password. Nothing else of a camera does that.
pub proof fn lemma_what_restarts_a_stream(a: CameraView, b: CameraView)
    ensures
        a.host != b.host ==> a.connects_differently(b),
        a.port != b.port ==> a.connects_differently(b),
        a.stream != b.stream ==> a.connects_differently(b),
        a.username != b.username ==> a.connects_differently(b),
        a.password != b.password ==> a.connects_differently(b),
        (CameraView { id: a.id, name: a.name, ..b }) == a ==> !a.connects_differently(b),
        a.connects_differently(b) == b.connects_differently(a),
{
}

/// A camera's address is its host and port, and the number of the stream: 0 for the main one and 1
/// for the other.
pub proof fn lemma_address_of_a_camera(camera: CameraView)
    requires
        text::trimmed(camera.host) == camera.host,
    ensures
        camera.stream == StreamKind::Main ==> camera.url() == "rtsp://"@ + camera.host + ":"@
            + text::decimal(camera.port as nat) + "/cam/realmonitor?channel=1&subtype=0"@,
        camera.stream == StreamKind::Sub ==> camera.url() == "rtsp://"@ + camera.host + ":"@
            + text::decimal(camera.port as nat) + "/cam/realmonitor?channel=1&subtype=1"@,
{
    reveal_strlit("/cam/realmonitor?channel=1&subtype=");
    reveal_strlit("/cam/realmonitor?channel=1&subtype=0");
    reveal_strlit("/cam/realmonitor?channel=1&subtype=1");
    assert(text::decimal(0) =~= seq!['0']);
    assert(text::decimal(1) =~= seq!['1']);
    let before = "rtsp://"@ + camera.host + ":"@ + text::decimal(camera.port as nat);
    if camera.stream == StreamKind::Main {
        assert(camera.url() =~= before + "/cam/realmonitor?channel=1&subtype=0"@);
    } else {
        assert(camera.url() =~= before + "/cam/realmonitor?channel=1&subtype=1"@);
    }
}

/// A camera is in order exactly when it has a name, a host without anything that belongs elsewhere
/// in an address, and a port.
pub proof fn lemma_when_a_camera_is_in_order(camera: CameraView)
    ensures
        ({
            let host = text::trimmed(camera.host);
            camera_problem(camera) is None <==> {
                &&& text::trimmed(camera.name).len() > 0
                &&& host.len() > 0
                &&& forall|i: int|
                    0 <= i < host.len() ==> (#[trigger] host[i]) != '/' && host[i] != ' ' && host[i]
                        != '@'
                &&& camera.port > 0
            }
        }),
        text::trimmed(camera.name).len() == 0 ==> camera_problem(camera) == Some(
            "Camera name is required"@,
        ),
{
    let host = text::trimmed(camera.host);
    if host.len() > 0 {
        if forall|i: int|
            0 <= i < host.len() ==> (#[trigger] host[i]) != '/' && host[i] != ' ' && host[i] != '@' {
            assert(!has_address_part(host));
        }
        if host.contains('/') {
            let k = choose|k: int| 0 <= k < host.len() && host[k] == '/';
            assert(host[k] == '/');
        }
        if host.contains(' ') {
            let k = choose|k: int| 0 <= k < host.len() && host[k] == ' ';
            assert(host[k] == ' ');
        }
        if host.contains('@') {
            let k = choose|k: int| 0 <= k < host.len() && host[k] == '@';
            assert(host[k] == '@');
        }
    }
}

/// Whether two names are the same does not depend on the white space around them, nor on the case
/// of their letters, nor on their order. Equal names are the same.
pub proof fn lemma_when_names_are_the_same(a: Seq<char>, b: Seq<char>, c: Seq<char>)
    ensures
        names_match(a, a),
        names_match(a, b) == names_match(b, a),
        names_match(a, b) && names_match(b, c) ==> names_match(a, c),
        text::trimmed(a) == text::trimmed(b) ==> names_match(a, b),
        text::lowercase(text::trimmed(a)) == text::lowercase(text::trimmed(b)) ==> names_match(a, b),
        text::lowercase(text::trimmed(a)) != text::lowercase(text::trimmed(b)) ==> !names_match(
            a,
            b,
        ),
{
}

/// An id is also read from its plain digits, and from the hyphenated form in braces.
pub proof fn lemma_other_forms_of_an_id(bits: u128)
    ensures
        uuid_value(text::hex(bits as nat, 32)) == Some(bits as nat),
        uuid_value(seq!['{'] + hyphenated(bits) + seq!['}']) == Some(bits as nat),
{
    lemma_written_id_reads_back(bits);
    lemma_written_id_not_blank(bits);
    lemma_hex_len(bits as nat, 32);
    assert(pow16(32) == 0x1_0000_0000_0000_0000_0000_0000_0000_0000) by {
        reveal_with_fuel(pow16, 33);
    }
    lemma_hex_value_of_hex(bits as nat, 32);
    let braced = seq!['{'] + hyphenated(bits) + seq!['}'];
    assert(braced.subrange(1, 37) =~= hyphenated(bits));
}

}
