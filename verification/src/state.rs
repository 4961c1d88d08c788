//! Application-wide state: the configuration in force, and what a change of it means.
use vstd::prelude::*;
use vstd::string::*;

use crate::camera::CameraConfig;
use crate::config::{self, Config, ConfigView, SLOT_COUNT};
use crate::dropdown;
use crate::error::ConfigError;
use crate::text;

verus! {

/// What a change of the configuration means for the streams.
#[derive(Clone, Copy, Debug, PartialEq, Eq, Structural)]
pub struct Update {
    /// The running set is to be matched with the cameras in the mosaic again.
    pub streams_changed: bool,
    /// Smooth playback is to be switched on or off.
    pub smooth: Option<bool>,
}

/// What the change from one configuration to another means.
pub open spec fn update_of(current: ConfigView, next: ConfigView) -> Update {
    Update {
        streams_changed: next.slots != current.slots || next.cameras != current.cameras,
        smooth: if next.smooth_playback != current.smooth_playback {
            Some(next.smooth_playback)
        } else {
            None
        },
    }
}

/// Whether the change from one configuration to another is to be saved, and what it then means; or
/// what is wrong with the other one.
pub open spec fn judged(current: ConfigView, next: ConfigView) -> Result<Option<Update>, Seq<char>> {
    if next == current {
        Ok(None)
    } else {
        match config::config_problem(next) {
            None => Ok(Some(update_of(current, next))),
            Some(problem) => Err(problem),
        }
    }
}

/// The state of the application.
pub struct AppState {
    config: Config,
    /// Problem worth showing to the user as a banner (e.g. a broken configuration file).
    notice: Option<String>,
}

/// What an [`AppState`] holds.
pub struct StateView {
    pub config: ConfigView,
    pub notice: Option<Seq<char>>,
}

impl View for AppState {
    type V = StateView;

    closed spec fn view(&self) -> StateView {
        StateView { config: self.config@, notice: dropdown::said(self.notice) }
    }
}

impl AppState {
    pub fn new(config: Config) -> (res: AppState)
        ensures
            res@ == (StateView { config: config@, notice: None }),
    {
        AppState { config, notice: None }
    }

    pub fn config(&self) -> (res: &Config)
        ensures
            res@ == self@.config,
    {
        &self.config
    }

    pub fn notice(&self) -> (res: Option<&str>)
        ensures
            match self@.notice {
                Some(notice) => res is Some && (res->0)@ == notice,
                None => res is None,
            },
    {
        match &self.notice {
            Some(notice) => Some(notice.as_str()),
            None => None,
        }
    }

    pub fn set_notice(&mut self, notice: &str)
        ensures
            final(self)@ == (StateView { notice: Some(notice@), ..old(self)@ }),
    {
        self.notice = Some(notice.to_owned());
    }

    /// Takes the notice away. Whether there was one.
    pub fn dismiss_notice(&mut self) -> (res: bool)
        ensures
            res == old(self)@.notice is Some,
            final(self)@ == (StateView { notice: None, ..old(self)@ }),
    {
        let shown = self.notice.is_some();
        self.notice = None;
        shown
    }

    /// Whether `next` is to be saved, and what it then means: nothing is when it says what the
    /// configuration says already, and an invalid one is refused. Nothing changes yet; see
    /// [`Self::commit`].
    pub fn update_config(&self, next: &Config) -> (res: Result<Option<Update>, ConfigError>)
        ensures
            match judged(self@.config, next@) {
                Ok(update) => res == Ok::<Option<Update>, ConfigError>(update),
                Err(problem) => res matches Err(ConfigError::Invalid(text)) && text@ == problem,
            },
    {
        if *next == self.config {
            return Ok(None);
        }
        if let Err(e) = next.validate() {
            return Err(e);
        }
        let smooth = if next.smooth_playback != self.config.smooth_playback {
            Some(next.smooth_playback)
        } else {
            None
        };
        Ok(Some(Update { streams_changed: self.config.streams_differ(next), smooth }))
    }

    /// Puts `next`, which has been saved, in force.
    pub fn commit(&mut self, next: Config)
        ensures
            final(self)@ == (StateView { config: next@, ..old(self)@ }),
    {
        self.config = next;
    }

    /// The cameras whose streams should run.
    pub fn wanted_cameras(&self) -> (res: Vec<CameraConfig>)
        ensures
            config::views(res@) == config::in_slots(self@.config, SLOT_COUNT as int),
    {
        let assigned = self.config.assigned_cameras();
        let ghost goal = config::in_slots(self@.config, SLOT_COUNT as int);
        let mut out: Vec<CameraConfig> = Vec::new();
        let mut i: usize = 0;
        assert(config::views(out@) =~= goal.take(0));
        while i < assigned.len()
            invariant
                i <= assigned@.len(),
                assigned@.map_values(|c: &CameraConfig| c@) == goal,
                config::views(out@) == goal.take(i as int),
            decreases assigned@.len() - i,
        {
            assert(goal[i as int] == assigned@[i as int]@);
            let ghost before = out@;
            out.push(assigned[i].clone());
            assert(config::views(out@) =~= config::views(before).push(goal[i as int]));
            assert(goal.take(i + 1) =~= goal.take(i as int).push(goal[i as int]));
            i = i + 1;
        }
        assert(goal.take(i as int) =~= goal);
        out
    }
}

/// A change that does not count as one of the streams leaves the wanted cameras as they are.
pub proof fn lemma_quiet_change_keeps_streams(current: ConfigView, next: ConfigView, n: int)
    requires
        !update_of(current, next).streams_changed,
        0 <= n <= current.slots.len(),
    ensures
        config::in_slots(next, n) == config::in_slots(current, n),
    decreases n,
{
    if n > 0 {
        lemma_quiet_change_keeps_streams(current, next, n - 1);
    }
}

/// Whether the text has a line break.
pub open spec fn breaks(s: Seq<char>) -> bool {
    s.contains('\n')
}

/// The first line of a text, without its line break.
pub open spec fn first_line(s: Seq<char>) -> Seq<char> {
    if !breaks(s) {
        s
    } else {
        let line = s.take(s.index_of_first('\n')->0);
        if line.len() > 0 && line.last() == '\r' {
            line.drop_last()
        } else {
            line
        }
    }
}

/// What the user is told about a configuration file that could not be read. `backup` is where it
/// was moved to, if it was.
pub open spec fn notice_of(message: Seq<char>, backup: Option<Seq<char>>) -> Seq<char> {
    first_line(message) + match backup {
        Some(backup) => ". The file was kept as "@ + backup
            + " and a new configuration was created."@,
        None => ". Using the default configuration; changes may not be saved."@,
    }
}

/// The first line of a text, without its line break.
fn cut_line(s: &str) -> (res: String)
    ensures
        res@ == first_line(s@),
{
    let chars = text::chars_of(s);
    let mut i: usize = 0;
    while i < chars.len() && chars[i] != '\n'
        invariant
            chars@ == s@,
            i <= chars@.len(),
            forall|k: int| 0 <= k < i ==> s@[k] != '\n',
        decreases chars@.len() - i,
    {
        i = i + 1;
    }
    if i == chars.len() {
        let res = text::string_of(&chars, 0, i);
        assert(res@ =~= s@);
        return res;
    }
    proof {
        assert(s@[i as int] == '\n');
        s@.index_of_first_ensures('\n');
        assert(s@.index_of_first('\n') == Some(i as int));
    }
    let ghost line = s@.take(i as int);
    if i > 0 && chars[i - 1] == '\r' {
        let res = text::string_of(&chars, 0, i - 1);
        assert(res@ =~= line.drop_last());
        res
    } else {
        let res = text::string_of(&chars, 0, i);
        assert(res@ =~= line);
        res
    }
}

/// What the user is told about a configuration file that could not be read.
pub fn broken_config_notice(error: &ConfigError, backup: Option<&str>) -> (res: String)
    ensures
        res@ == notice_of(
            error.message(),
            match backup {
                Some(backup) => Some(backup@),
                None => None,
            },
        ),
{
    let message = error.to_text();
    let mut out = cut_line(message.as_str());
    match backup {
        Some(backup) => {
            let mut rest = ". The file was kept as ".to_owned();
            rest.append(backup);
            rest.append(" and a new configuration was created.");
            out.append(rest.as_str());
        },
        None => {
            out.append(". Using the default configuration; changes may not be saved.");
        },
    }
    out
}

/// The name that a broken configuration file is kept under, by the second when it was found.
pub fn backup_name(stamp: u64) -> (res: String)
    ensures
        res@ == "config.toml.broken-"@ + text::decimal(stamp as nat),
{
    let mut out = "config.toml.broken-".to_owned();
    out.append(text::to_decimal(stamp).as_str());
    out
}

/// What the user is told when a change made in the mosaic could not be saved.
pub fn unsaved_notice(error: &ConfigError) -> (res: String)
    ensures
        res@ == "Could not save the configuration: "@ + error.message(),
{
    let mut out = "Could not save the configuration: ".to_owned();
    out.append(error.to_text().as_str());
    out
}

/// Any change of a camera or of a slot counts for the streams, and no other change does. Smooth
/// playback is switched exactly when it changed, to what it is now.
pub proof fn lemma_what_a_change_means(current: ConfigView, next: ConfigView, i: int)
    ensures
        next.cameras.len() != current.cameras.len() ==> update_of(current, next).streams_changed,
        next.slots.len() != current.slots.len() ==> update_of(current, next).streams_changed,
        0 <= i < next.cameras.len() && next.cameras[i] != current.cameras[i] ==> update_of(
            current,
            next,
        ).streams_changed,
        0 <= i < next.slots.len() && next.slots[i] != current.slots[i] ==> update_of(
            current,
            next,
        ).streams_changed,
        next.cameras == current.cameras && next.slots == current.slots ==> !update_of(
            current,
            next,
        ).streams_changed,
        next.smooth_playback == current.smooth_playback ==> update_of(current, next).smooth is None,
        next.smooth_playback && !current.smooth_playback ==> update_of(current, next).smooth
            == Some(true),
        !next.smooth_playback && current.smooth_playback ==> update_of(current, next).smooth
            == Some(false),
{
}

/// A configuration that says what is in force already is not saved again, even where it is not
/// in order; another one is saved exactly when it is.
pub proof fn lemma_when_a_configuration_is_saved(current: ConfigView, next: ConfigView)
    ensures
        judged(current, current) == Ok::<Option<Update>, Seq<char>>(None),
        next != current && next.valid() ==> judged(current, next) is Ok && judged(
            current,
            next,
        )->Ok_0 is Some,
        next != current && !next.valid() ==> judged(current, next) is Err,
        next.window != current.window && next.valid() ==> judged(current, next)->Ok_0 is Some,
        next.open_at_login != current.open_at_login && next.valid() ==> judged(current, next)->Ok_0
            is Some,
{
    config::lemma_no_problem_is_valid(next);
}

/// The first line of a text has no line break, is how the text begins, and ends where a line break
/// stands or the text is over.
pub proof fn lemma_first_line_ends_at_a_break(s: Seq<char>)
    ensures
        ({
            let line = first_line(s);
            let n = line.len() as int;
            &&& n <= s.len()
            &&& line == s.take(n)
            &&& forall|i: int| 0 <= i < n ==> (#[trigger] line[i]) != '\n'
            &&& n == s.len() || s[n] == '\n' || (n + 1 < s.len() && s[n] == '\r' && s[n + 1]
                == '\n')
            &&& n > 0 && n < s.len() && s[n] == '\n' ==> s[n - 1] != '\r'
        }),
{
    if breaks(s) {
        s.index_of_first_ensures('\n');
        let at = s.index_of_first('\n')->0;
        let line = s.take(at);
        if line.len() > 0 && line.last() == '\r' {
            assert(line.drop_last() =~= s.take(at - 1));
            assert(s[at - 1] == '\r');
        }
        assert forall|i: int| 0 <= i < at implies s[i] != '\n' by {
            assert(line[i] == s[i]);
        }
    } else {
        assert(s.take(s.len() as int) =~= s);
        assert forall|i: int| 0 <= i < s.len() implies s[i] != '\n' by {
            if s[i] == '\n' {
                assert(s.contains('\n'));
            }
        }
    }
}

/// What is told of a broken file starts with the first line of what is wrong, and tells where the
/// file was kept, if it was.
pub proof fn lemma_notice_tells_what_became_of_the_file(message: Seq<char>, backup: Seq<char>)
    ensures
        notice_of(message, Some(backup)) == first_line(message) + ". The file was kept as "@ + backup
            + " and a new configuration was created."@,
        notice_of(message, None) == first_line(message)
            + ". Using the default configuration; changes may not be saved."@,
{
    assert(notice_of(message, Some(backup)) =~= first_line(message) + ". The file was kept as "@
        + backup + " and a new configuration was created."@);
}

}
