//! Configuration of the worker: one `key=value` per line. Keys prefixed
//! `consumer.` or `producer.` go, stripped, to the respective broker
//! client; keys prefixed `processor.` set the internal options; all
//! other keys go to both clients. Reading the file itself happens
//! outside the library, which is handed the lines.
use vstd::prelude::*;
use vstd::string::StrSliceExecFns;
use crate::strutil::{spec_starts_with, spec_parse_usize, str_starts_with, str_after_prefix,
    str_eq, parse_usize, parse_bool};

verus! {

/// The internal options of the processor, with their defaults.
#[derive(Debug)]
pub struct InternalConfig {
    pub worker_threads: usize,
    pub channel_capacity: usize,
    pub queue_slowdown_ms: usize,
    pub queue_size: usize,
    pub journal_enabled: bool,
    pub journal_path: String,
}

impl Default for InternalConfig {
    /// The defaults: 4 workers, a channel of 50, a nominal queue of
    /// 100000 slowed down for up to 10 s, journal on under
    /// `./kjp_journal`.
    fn default() -> (r: InternalConfig)
        ensures
            r.worker_threads == 4,
            r.channel_capacity == 50,
            r.queue_slowdown_ms == 10000,
            r.queue_size == 100000,
            r.journal_enabled == true,
            r.journal_path@ == "./kjp_journal"@,
    {
        InternalConfig {
            worker_threads: 4,
            channel_capacity: 50,
            queue_slowdown_ms: 10_000,
            queue_size: 100_000,
            journal_enabled: true,
            journal_path: String::from_str("./kjp_journal"),
        }
    }
}

/// Settings handed to one broker client, in the order they were read.
pub struct ClientSettings {
    pub entries: Vec<(String, String)>,
}

/// View of client settings.
pub open spec fn settings_view(entries: Seq<(String, String)>) -> Seq<(Seq<char>, Seq<char>)> {
    entries.map_values(|e: (String, String)| (e.0@, e.1@))
}

impl ClientSettings {
    /// No settings yet.
    pub fn new() -> (r: ClientSettings)
        ensures
            settings_view(r.entries@) == Seq::<(Seq<char>, Seq<char>)>::empty(),
    {
        let r = ClientSettings { entries: Vec::new() };
        proof {
            assert(settings_view(r.entries@) =~= Seq::<(Seq<char>, Seq<char>)>::empty());
        }
        r
    }

    /// Appends one setting.
    pub fn set(&mut self, key: String, value: String)
        ensures
            settings_view(final(self).entries@)
                == settings_view(old(self).entries@).push((key@, value@)),
    {
        let ghost old_entries = self.entries@;
        let ghost k = key@;
        let ghost v = value@;
        self.entries.push((key, value));
        proof {
            assert(settings_view(self.entries@) =~= settings_view(old_entries).push((k, v)));
        }
    }
}

/// The whole configuration: settings for the two broker clients and the
/// internal options.
pub struct Config {
    pub consumer_config: ClientSettings,
    pub producer_config: ClientSettings,
    pub internal_config: InternalConfig,
}

/// A whitespace character of a configuration line.
pub open spec fn is_cfg_space(c: char) -> bool {
    c == ' ' || c == '\t' || c == '\r' || c == '\n'
}

/// A line to be skipped: a comment or only whitespace.
pub open spec fn spec_should_ignore(line: Seq<char>) -> bool {
    (line.len() > 0 && line[0] == '#')
        || (forall|i: int| 0 <= i < line.len() ==> is_cfg_space(#[trigger] line[i]))
}

/// Is this character configuration whitespace?
fn cfg_space(c: char) -> (r: bool)
    ensures
        r == is_cfg_space(c),
{
    c == ' ' || c == '\t' || c == '\r' || c == '\n'
}

/// Is this line a comment or blank?
pub fn should_ignore(line: &str) -> (r: bool)
    ensures
        r == spec_should_ignore(line@),
{
    let n = line.unicode_len();
    if n > 0 {
        let c0 = line.get_char(0);
        if c0 == '#' {
            return true;
        }
        proof {
            assert(line@[0] != '#');
        }
    }
    let mut i: usize = 0;
    while i < n
        invariant
            n == line@.len(),
            i <= n,
            n > 0 ==> line@[0] != '#',
            forall|j: int| 0 <= j < i ==> is_cfg_space(#[trigger] line@[j]),
        decreases n - i,
    {
        let c = line.get_char(i);
        if !cfg_space(c) {
            assert(!is_cfg_space(line@[i as int]));
            return false;
        }
        i = i + 1;
    }
    true
}

/// Index of the first `=` in `line`, if any.
pub open spec fn first_eq(line: Seq<char>, from: int) -> Option<int>
    decreases line.len() - from,
    when 0 <= from <= line.len()
{
    if from >= line.len() {
        None
    } else if line[from] == '=' {
        Some(from)
    } else {
        first_eq(line, from + 1)
    }
}

/// The key and value of a line: the text before the first `=` and the
/// text between the first and second `=` (or the end).
pub open spec fn spec_key_value(line: Seq<char>) -> Option<(Seq<char>, Seq<char>)> {
    match first_eq(line, 0) {
        Some(d) => {
            let key = line.subrange(0, d);
            let value = match first_eq(line, d + 1) {
                Some(d2) => line.subrange(d + 1, d2),
                None => line.subrange(d + 1, line.len() as int),
            };
            Some((key, value))
        },
        None => None,
    }
}

/// Finds the first `=` at or after `from`.
fn find_eq(line: &str, from: usize) -> (r: Option<usize>)
    requires
        from <= line@.len(),
    ensures
        match r {
            Some(d) => first_eq(line@, from as int) == Some(d as int) && from <= d
                && d < line@.len(),
            None => first_eq(line@, from as int) is None,
        },
    decreases line@.len() - from,
{
    let n = line.unicode_len();
    let mut i: usize = from;
    while i < n
        invariant
            n == line@.len(),
            from <= i <= n,
            first_eq(line@, from as int) == first_eq(line@, i as int),
        decreases n - i,
    {
        if line.get_char(i) == '=' {
            return Some(i);
        }
        i = i + 1;
    }
    None
}

/// Splits a line into its key and value. A line without `=` is
/// malformed.
pub fn key_value(line: &str) -> (r: Result<(String, String), String>)
    ensures
        match r {
            Ok(kv) => spec_key_value(line@) == Some((kv.0@, kv.1@)),
            Err(_) => spec_key_value(line@) is None,
        },
{
    let n = line.unicode_len();
    match find_eq(line, 0) {
        Some(d) => {
            let key = line.substring_char(0, d);
            let value = match find_eq(line, d + 1) {
                Some(d2) => line.substring_char(d + 1, d2),
                None => line.substring_char(d + 1, n),
            };
            Ok((String::from_str(key), String::from_str(value)))
        },
        None => {
            let mut msg = String::from_str("Illegal config entry (malformed value): ");
            msg.append(line);
            Err(msg)
        },
    }
}

/// View of the internal options.
pub struct IcView {
    pub worker_threads: int,
    pub channel_capacity: int,
    pub queue_slowdown_ms: int,
    pub queue_size: int,
    pub journal_enabled: bool,
    pub journal_path: Seq<char>,
}

impl View for InternalConfig {
    type V = IcView;

    open spec fn view(&self) -> IcView {
        IcView {
            worker_threads: self.worker_threads as int,
            channel_capacity: self.channel_capacity as int,
            queue_slowdown_ms: self.queue_slowdown_ms as int,
            queue_size: self.queue_size as int,
            journal_enabled: self.journal_enabled,
            journal_path: self.journal_path@,
        }
    }
}

/// The internal options after one `processor.` line: the named option
/// takes the parsed value; an unknown key changes nothing; a value that
/// does not parse is an error and changes nothing.
pub open spec fn spec_set_internal(c: IcView, key: Seq<char>, value: Seq<char>) -> Option<
    IcView,
> {
    if key == "processor.channel.capacity"@ {
        match spec_parse_usize(value) {
            Some(v) => Some(IcView { channel_capacity: v as int, ..c }),
            None => None,
        }
    } else if key == "processor.worker.threads"@ {
        match spec_parse_usize(value) {
            Some(v) => Some(IcView { worker_threads: v as int, ..c }),
            None => None,
        }
    } else if key == "processor.queue.size"@ {
        match spec_parse_usize(value) {
            Some(v) => Some(IcView { queue_size: v as int, ..c }),
            None => None,
        }
    } else if key == "processor.queue.slowdown.ms"@ {
        match spec_parse_usize(value) {
            Some(v) => Some(IcView { queue_slowdown_ms: v as int, ..c }),
            None => None,
        }
    } else if key == "processor.journal.path"@ {
        Some(IcView { journal_path: value, ..c })
    } else if key == "processor.journal.enabled"@ {
        if value == "true"@ {
            Some(IcView { journal_enabled: true, ..c })
        } else if value == "false"@ {
            Some(IcView { journal_enabled: false, ..c })
        } else {
            None
        }
    } else {
        Some(c)
    }
}

/// Applies one `processor.` option. An unknown key is ignored; a value
/// of the wrong shape is rejected and nothing changes.
pub fn set_internal(key: &str, value: &str, config: &mut InternalConfig) -> (r: Result<
    (),
    String,
>)
    ensures
        match r {
            Ok(_) => spec_set_internal(old(config)@, key@, value@) == Some(final(config)@),
            Err(_) => spec_set_internal(old(config)@, key@, value@) is None
                && final(config)@ == old(config)@,
        },
{
    if str_eq(key, "processor.channel.capacity") {
        match parse_usize(value) {
            Some(v) => {
                config.channel_capacity = v;
                Ok(())
            },
            None => Err(String::from_str("invalid value for processor.channel.capacity")),
        }
    } else if str_eq(key, "processor.worker.threads") {
        match parse_usize(value) {
            Some(v) => {
                config.worker_threads = v;
                Ok(())
            },
            None => Err(String::from_str("invalid value for processor.worker.threads")),
        }
    } else if str_eq(key, "processor.queue.size") {
        match parse_usize(value) {
            Some(v) => {
                config.queue_size = v;
                Ok(())
            },
            None => Err(String::from_str("invalid value for processor.queue.size")),
        }
    } else if str_eq(key, "processor.queue.slowdown.ms") {
        match parse_usize(value) {
            Some(v) => {
                config.queue_slowdown_ms = v;
                Ok(())
            },
            None => Err(String::from_str("invalid value for processor.queue.slowdown.ms")),
        }
    } else if str_eq(key, "processor.journal.path") {
        config.journal_path = String::from_str(value);
        Ok(())
    } else if str_eq(key, "processor.journal.enabled") {
        match parse_bool(value) {
            Some(v) => {
                config.journal_enabled = v;
                Ok(())
            },
            None => Err(String::from_str("invalid value for processor.journal.enabled")),
        }
    } else {
        // Unknown option: ignored, as the worker only warns about it.
        Ok(())
    }
}

/// Leading configuration whitespace removed.
pub open spec fn spec_trim_start(s: Seq<char>) -> Seq<char>
    decreases s.len(),
{
    if s.len() > 0 && is_cfg_space(s[0]) {
        spec_trim_start(s.drop_first())
    } else {
        s
    }
}

/// Skipping a run of leading whitespace is what `spec_trim_start` does.
proof fn lemma_trim_start_at(s: Seq<char>, i: int)
    requires
        0 <= i <= s.len(),
        forall|j: int| 0 <= j < i ==> is_cfg_space(#[trigger] s[j]),
        i == s.len() || !is_cfg_space(s[i]),
    ensures
        spec_trim_start(s) == s.subrange(i, s.len() as int),
    decreases i,
{
    if i == 0 {
        assert(s.subrange(0, s.len() as int) =~= s);
    } else {
        assert(is_cfg_space(s[0]));
        lemma_trim_start_at(s.drop_first(), i - 1);
        assert(s.drop_first().subrange(i - 1, s.drop_first().len() as int)
            =~= s.subrange(i, s.len() as int));
    }
}

/// Removes leading whitespace.
pub fn trim_start(s: &str) -> (r: String)
    ensures
        r@ == spec_trim_start(s@),
{
    let n = s.unicode_len();
    let mut i: usize = 0;
    while i < n && cfg_space(s.get_char(i))
        invariant
            n == s@.len(),
            i <= n,
            forall|j: int| 0 <= j < i ==> is_cfg_space(#[trigger] s@[j]),
        decreases n - i,
    {
        i = i + 1;
    }
    proof {
        lemma_trim_start_at(s@, i as int);
    }
    String::from_str(s.substring_char(i, n))
}

impl Config {
    /// An empty configuration with default internal options.
    pub fn new() -> (r: Config)
        ensures
            settings_view(r.consumer_config.entries@).len() == 0,
            settings_view(r.producer_config.entries@).len() == 0,
            r.internal_config.worker_threads == 4,
            r.internal_config.channel_capacity == 50,
            r.internal_config.queue_slowdown_ms == 10000,
            r.internal_config.queue_size == 100000,
            r.internal_config.journal_enabled == true,
            r.internal_config.journal_path@ == "./kjp_journal"@,
    {
        Config {
            consumer_config: ClientSettings::new(),
            producer_config: ClientSettings::new(),
            internal_config: InternalConfig::default(),
        }
    }

    /// Applies one configuration line: comments and blank lines are
    /// skipped; a `consumer.` or `producer.` key goes, stripped, to
    /// that client; a `processor.` key sets an internal option; any
    /// other key goes to both clients.
    pub fn apply_line(&mut self, raw_line: &str) -> (r: Result<(), String>)
        ensures
            ({
                let line = spec_trim_start(raw_line@);
                let cons0 = settings_view(old(self).consumer_config.entries@);
                let prod0 = settings_view(old(self).producer_config.entries@);
                let cons1 = settings_view(final(self).consumer_config.entries@);
                let prod1 = settings_view(final(self).producer_config.entries@);
                if spec_should_ignore(line) {
                    r is Ok && *final(self) == *old(self)
                } else {
                    match spec_key_value(line) {
                        Some(kv) => {
                            let (key, value) = kv;
                            if spec_starts_with(key, "consumer."@) {
                                r is Ok
                                && cons1 == cons0.push(
                                    (key.subrange("consumer."@.len() as int,
                                        key.len() as int), value))
                                && prod1 == prod0
                                && final(self).internal_config == old(self).internal_config
                            } else if spec_starts_with(key, "producer."@) {
                                r is Ok
                                && prod1 == prod0.push(
                                    (key.subrange("producer."@.len() as int,
                                        key.len() as int), value))
                                && cons1 == cons0
                                && final(self).internal_config == old(self).internal_config
                            } else if spec_starts_with(key, "processor."@) {
                                cons1 == cons0 && prod1 == prod0
                                && match spec_set_internal(
                                    old(self).internal_config@, key, value) {
                                    Some(ic) => r is Ok
                                        && final(self).internal_config@ == ic,
                                    None => r is Err && final(self).internal_config@
                                        == old(self).internal_config@,
                                }
                            } else {
                                r is Ok
                                && cons1 == cons0.push((key, value))
                                && prod1 == prod0.push((key, value))
                                && final(self).internal_config == old(self).internal_config
                            }
                        },
                        None => r is Err && *final(self) == *old(self),
                    }
                }
            }),
    {
        let line = trim_start(raw_line);
        if should_ignore(line.as_str()) {
            return Ok(());
        }
        let (key, value) = match key_value(line.as_str()) {
            Ok(kv) => kv,
            Err(e) => {
                return Err(e);
            },
        };
        if str_starts_with(key.as_str(), "consumer.") {
            let stripped = str_after_prefix(key.as_str(), "consumer.");
            self.consumer_config.set(String::from_str(stripped), value);
            Ok(())
        } else if str_starts_with(key.as_str(), "producer.") {
            let stripped = str_after_prefix(key.as_str(), "producer.");
            self.producer_config.set(String::from_str(stripped), value);
            Ok(())
        } else if str_starts_with(key.as_str(), "processor.") {
            match set_internal(key.as_str(), value.as_str(), &mut self.internal_config) {
                Ok(_) => Ok(()),
                Err(e) => Err(e),
            }
        } else {
            self.consumer_config.set(key.clone(), value.clone());
            self.producer_config.set(key, value);
            Ok(())
        }
    }

    /// Applies the lines of a configuration file in order, stopping at
    /// the first malformed one.
    #[verifier::loop_isolation(false)]
    pub fn read_from(lines: &Vec<String>) -> (r: Result<Config, String>)
        ensures
            match r {
                Ok(c) => spec_read_config(lines.deep_view()) == Some((
                    settings_view(c.consumer_config.entries@),
                    settings_view(c.producer_config.entries@),
                    c.internal_config@,
                )),
                Err(_) => spec_read_config(lines.deep_view()) is None,
            },
    {
        let mut config = Config::new();
        let n = lines.len();
        proof {
            assert(lines.deep_view().len() == n);
            assert(forall|j: int| 0 <= j < n ==> #[trigger] lines.deep_view()[j]
                == lines@[j]@);
            assert(lines.deep_view().subrange(0, 0) =~= Seq::<Seq<char>>::empty());
            assert(settings_view(config.consumer_config.entries@) =~= Seq::empty());
            assert(settings_view(config.producer_config.entries@) =~= Seq::empty());
        }
        let mut i: usize = 0;
        while i < n
            invariant
                i <= n,
                spec_read_config(lines.deep_view().subrange(0, i as int)) == Some((
                    settings_view(config.consumer_config.entries@),
                    settings_view(config.producer_config.entries@),
                    config.internal_config@,
                )),
            decreases n - i,
        {
            proof {
                assert(lines.deep_view().subrange(0, i as int + 1).drop_last()
                    =~= lines.deep_view().subrange(0, i as int));
                assert(lines.deep_view().subrange(0, i as int + 1).last()
                    == lines.deep_view()[i as int]);
            }
            match config.apply_line(lines[i].as_str()) {
                Ok(_) => {},
                Err(e) => {
                    proof {
                        lemma_read_config_error(lines.deep_view(), i as int + 1);
                    }
                    return Err(e);
                },
            }
            i = i + 1;
        }
        proof {
            assert(lines.deep_view().subrange(0, n as int) =~= lines.deep_view());
        }
        Ok(config)
    }
}

/// The internal options before any line is read.
pub open spec fn spec_default_internal() -> IcView {
    IcView {
        worker_threads: 4,
        channel_capacity: 50,
        queue_slowdown_ms: 10000,
        queue_size: 100000,
        journal_enabled: true,
        journal_path: "./kjp_journal"@,
    }
}

/// The configuration state after one line, or `None` when the line is
/// malformed.
pub open spec fn spec_apply_line(
    state: (Seq<(Seq<char>, Seq<char>)>, Seq<(Seq<char>, Seq<char>)>, IcView),
    raw_line: Seq<char>,
) -> Option<(Seq<(Seq<char>, Seq<char>)>, Seq<(Seq<char>, Seq<char>)>, IcView)> {
    let (cons, prod, ic) = state;
    let line = spec_trim_start(raw_line);
    if spec_should_ignore(line) {
        Some(state)
    } else {
        match spec_key_value(line) {
            Some((key, value)) => {
                if spec_starts_with(key, "consumer."@) {
                    Some((cons.push((key.subrange("consumer."@.len() as int,
                        key.len() as int), value)), prod, ic))
                } else if spec_starts_with(key, "producer."@) {
                    Some((cons, prod.push((key.subrange("producer."@.len() as int,
                        key.len() as int), value)), ic))
                } else if spec_starts_with(key, "processor."@) {
                    match spec_set_internal(ic, key, value) {
                        Some(ic2) => Some((cons, prod, ic2)),
                        None => None,
                    }
                } else {
                    Some((cons.push((key, value)), prod.push((key, value)), ic))
                }
            },
            None => None,
        }
    }
}

/// The configuration encoded by a list of lines: defaults, then each
/// line applied in order; `None` when some line is malformed.
pub open spec fn spec_read_config(lines: Seq<Seq<char>>) -> Option<(
    Seq<(Seq<char>, Seq<char>)>,
    Seq<(Seq<char>, Seq<char>)>,
    IcView,
)>
    decreases lines.len(),
{
    if lines.len() == 0 {
        Some((Seq::empty(), Seq::empty(), spec_default_internal()))
    } else {
        match spec_read_config(lines.drop_last()) {
            Some(state) => spec_apply_line(state, lines.last()),
            None => None,
        }
    }
}

/// Once a line has failed, the whole read fails.
proof fn lemma_read_config_error(lines: Seq<Seq<char>>, i: int)
    requires
        0 <= i <= lines.len(),
        spec_read_config(lines.subrange(0, i)) is None,
    ensures
        spec_read_config(lines) is None,
    decreases lines.len() - i,
{
    if i < lines.len() {
        assert(lines.subrange(0, i + 1).drop_last() =~= lines.subrange(0, i));
        lemma_read_config_error(lines, i + 1);
    } else {
        assert(lines.subrange(0, i) =~= lines);
    }
}

} // verus!
