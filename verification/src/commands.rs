//! The console commands of the demo source and the demo receiver: what a line
//! of input asks for, read word by word.
//!
//! A line whose words do not say what the command needs is refused with a
//! `CommandError`; a line on which the console programs give up (a number
//! that does not parse, too many channel values, a missing flag) is reported
//! by `source_line_fails` / `receiver_line_fails` so that the caller can stop.
use vstd::prelude::*;
use crate::packet::UNIVERSE_CHANNEL_CAPACITY;
use crate::console::{parse_flag, parse_unsigned, read_flag, read_unsigned, split_words, words};

verus! {

/// Why a console line is refused.
#[derive(Debug, Clone, Copy, PartialEq, Eq, Structural)]
pub enum CommandError {
    /// The line has fewer words than its command needs.
    TooFewWords,
    /// A flag is neither `true` nor `false`.
    BadFlag,
    /// The test preset number is not one of the presets.
    UnknownPreset,
    /// The first word is not a command.
    UnknownCommand,
}

/// The scenarios of the sender interoperability tests that the demo source can play.
#[derive(Debug, Clone, Copy, PartialEq, Eq, Structural)]
pub enum TestPreset {
    /// Preset 7: channels that move independently (a sine wave through the universe).
    MovingChannels,
    /// Preset 8: rapid changes between 0 and 255.
    RapidChanges,
    /// Preset 9: a high data rate over sixteen universes.
    HighDataRate,
}

/// The number of the moving channels test preset.
pub const TEST_PRESET_MOVING_CHANNELS: u64 = 7;

/// The number of the rapid changes test preset.
pub const TEST_PRESET_RAPID_CHANGES: u64 = 8;

/// The number of the high data rate test preset.
pub const TEST_PRESET_HIGH_DATA_RATE: u64 = 9;

/// A command of the demo source.
#[derive(Debug, Clone)]
pub enum SourceCommand {
    /// `# ...`: the line is a comment.
    Ignore,
    /// `d <universe> <sync_uni> <priority> <values...>`: send the values (a sync universe of 0 means none).
    Data { universe: u16, sync_uni: u16, priority: u8, data: Vec<u8> },
    /// `f <universe> <sync_uni> <priority> <values...>`: send a full universe that starts with the values.
    FullData { universe: u16, sync_uni: u16, priority: u8, data: Vec<u8> },
    /// `u <universe> <sync_uni> <priority> <dst_addr> <values...>`: send the values unicast to the address.
    Unicast { universe: u16, sync_uni: u16, priority: u8, dst: Vec<char>, data: Vec<u8> },
    /// `x <universe> <duration_millis> <priority>`: send a changing shape for the duration.
    DataOverTime { universe: u16, duration_millis: u64, priority: u8 },
    /// `s <universe>`: send a synchronisation packet.
    Sync { universe: u16 },
    /// `us <universe> <dst_addr>`: send a synchronisation packet to the address.
    UnicastSync { universe: u16, dst: Vec<char> },
    /// `r <universe>`: register the universe.
    Register { universe: u16 },
    /// `p <true/false>`: set the preview data flag.
    Preview { on: bool },
    /// `q <universe>` with a universe other than 0: terminate the universe.
    Terminate { universe: u16 },
    /// `q 0`: stop.
    Quit,
    /// `w <milliseconds>`: sleep.
    Sleep { millis: u64 },
    /// `a <universe> <value>`: send a full universe with every channel at the value.
    AllData { universe: u16, value: u8 },
    /// `t <preset> <universe>`: play a test preset on the universe.
    TestPreset { preset: TestPreset, universe: u16 },
}

/// A command of the demo source with its data as sequences.
pub enum SourceCommandModel {
    Ignore,
    Data { universe: u16, sync_uni: u16, priority: u8, data: Seq<u8> },
    FullData { universe: u16, sync_uni: u16, priority: u8, data: Seq<u8> },
    Unicast { universe: u16, sync_uni: u16, priority: u8, dst: Seq<char>, data: Seq<u8> },
    DataOverTime { universe: u16, duration_millis: u64, priority: u8 },
    Sync { universe: u16 },
    UnicastSync { universe: u16, dst: Seq<char> },
    Register { universe: u16 },
    Preview { on: bool },
    Terminate { universe: u16 },
    Quit,
    Sleep { millis: u64 },
    AllData { universe: u16, value: u8 },
    TestPreset { preset: TestPreset, universe: u16 },
}

impl View for SourceCommand {
    type V = SourceCommandModel;

    open spec fn view(&self) -> SourceCommandModel {
        match self {
            SourceCommand::Ignore => SourceCommandModel::Ignore,
            SourceCommand::Data { universe, sync_uni, priority, data } => SourceCommandModel::Data {
                universe: *universe,
                sync_uni: *sync_uni,
                priority: *priority,
                data: data@,
            },
            SourceCommand::FullData { universe, sync_uni, priority, data } =>
                SourceCommandModel::FullData {
                universe: *universe,
                sync_uni: *sync_uni,
                priority: *priority,
                data: data@,
            },
            SourceCommand::Unicast { universe, sync_uni, priority, dst, data } =>
                SourceCommandModel::Unicast {
                universe: *universe,
                sync_uni: *sync_uni,
                priority: *priority,
                dst: dst@,
                data: data@,
            },
            SourceCommand::DataOverTime { universe, duration_millis, priority } =>
                SourceCommandModel::DataOverTime {
                universe: *universe,
                duration_millis: *duration_millis,
                priority: *priority,
            },
            SourceCommand::Sync { universe } => SourceCommandModel::Sync { universe: *universe },
            SourceCommand::UnicastSync { universe, dst } => SourceCommandModel::UnicastSync {
                universe: *universe,
                dst: dst@,
            },
            SourceCommand::Register { universe } => SourceCommandModel::Register {
                universe: *universe,
            },
            SourceCommand::Preview { on } => SourceCommandModel::Preview { on: *on },
            SourceCommand::Terminate { universe } => SourceCommandModel::Terminate {
                universe: *universe,
            },
            SourceCommand::Quit => SourceCommandModel::Quit,
            SourceCommand::Sleep { millis } => SourceCommandModel::Sleep { millis: *millis },
            SourceCommand::AllData { universe, value } => SourceCommandModel::AllData {
                universe: *universe,
                value: *value,
            },
            SourceCommand::TestPreset { preset, universe } => SourceCommandModel::TestPreset {
                preset: *preset,
                universe: *universe,
            },
        }
    }
}

/// The `u16` that the word `w` writes, if any.
pub open spec fn u16_of(w: Seq<char>) -> Option<u16> {
    match parse_unsigned(w, 0xffff) {
        Some(v) => Some(v as u16),
        None => None,
    }
}

/// The `u8` that the word `w` writes, if any.
pub open spec fn u8_of(w: Seq<char>) -> Option<u8> {
    match parse_unsigned(w, 0xff) {
        Some(v) => Some(v as u8),
        None => None,
    }
}

/// The `u64` that the word `w` writes, if any.
pub open spec fn u64_of(w: Seq<char>) -> Option<u64> {
    match parse_unsigned(w, 0xffff_ffff_ffff_ffff) {
        Some(v) => Some(v as u64),
        None => None,
    }
}

/// The `usize` that the word `w` writes, if any.
pub open spec fn usize_of(w: Seq<char>) -> Option<usize> {
    match parse_unsigned(w, usize::MAX as int) {
        Some(v) => Some(v as usize),
        None => None,
    }
}

/// The channel values that the words of `w` from index `from` on write, if each writes a `u8`.
pub open spec fn bytes_of(w: Seq<Seq<char>>, from: int) -> Option<Seq<u8>> {
    if forall|i: int| from <= i < w.len() ==> (#[trigger] u8_of(w[i])) is Some {
        Some(Seq::new((w.len() - from) as nat, |i: int| u8_of(w[from + i])->0))
    } else {
        None
    }
}

/// A full universe of channel values that starts with `v` and is 0 after it.
pub open spec fn full_universe(v: Seq<u8>) -> Seq<u8> {
    Seq::new(UNIVERSE_CHANNEL_CAPACITY as nat, |i: int| if i < v.len() { v[i] } else { 0u8 })
}

/// The test preset with the number `n`, if there is one.
pub open spec fn preset_of(n: usize) -> Option<TestPreset> {
    if n == TEST_PRESET_MOVING_CHANNELS {
        Some(TestPreset::MovingChannels)
    } else if n == TEST_PRESET_RAPID_CHANGES {
        Some(TestPreset::RapidChanges)
    } else if n == TEST_PRESET_HIGH_DATA_RATE {
        Some(TestPreset::HighDataRate)
    } else {
        None
    }
}

/// What the demo source makes of a line with the words `w`: `None` where it gives
/// up on the line (a number that does not parse, more values than a universe holds),
/// else the command or why the line is refused.
pub open spec fn source_command(w: Seq<Seq<char>>) -> Option<Result<SourceCommandModel, CommandError>> {
    if w.len() < 2 {
        Some(Err(CommandError::TooFewWords))
    } else if w[0] == seq!['#'] {
        Some(Ok(SourceCommandModel::Ignore))
    } else if w[0] == seq!['d'] {
        if u16_of(w[1]) is None {
            None
        } else if w.len() < 4 {
            Some(Err(CommandError::TooFewWords))
        } else if u16_of(w[2]) is None || u8_of(w[3]) is None || bytes_of(w, 4) is None {
            None
        } else {
            Some(
                Ok(
                    SourceCommandModel::Data {
                        universe: u16_of(w[1])->0,
                        sync_uni: u16_of(w[2])->0,
                        priority: u8_of(w[3])->0,
                        data: bytes_of(w, 4)->0,
                    },
                ),
            )
        }
    } else if w[0] == seq!['f'] {
        if w.len() < 4 {
            Some(Err(CommandError::TooFewWords))
        } else if u16_of(w[1]) is None || u16_of(w[2]) is None || u8_of(w[3]) is None || bytes_of(
            w,
            4,
        ) is None || w.len() - 4 > UNIVERSE_CHANNEL_CAPACITY {
            None
        } else {
            Some(
                Ok(
                    SourceCommandModel::FullData {
                        universe: u16_of(w[1])->0,
                        sync_uni: u16_of(w[2])->0,
                        priority: u8_of(w[3])->0,
                        data: full_universe(bytes_of(w, 4)->0),
                    },
                ),
            )
        }
    } else if w[0] == seq!['u'] {
        if u16_of(w[1]) is None {
            None
        } else if w.len() < 5 {
            Some(Err(CommandError::TooFewWords))
        } else if u16_of(w[2]) is None || u8_of(w[3]) is None || bytes_of(w, 5) is None {
            None
        } else {
            Some(
                Ok(
                    SourceCommandModel::Unicast {
                        universe: u16_of(w[1])->0,
                        sync_uni: u16_of(w[2])->0,
                        priority: u8_of(w[3])->0,
                        dst: w[4],
                        data: bytes_of(w, 5)->0,
                    },
                ),
            )
        }
    } else if w[0] == seq!['x'] {
        if w.len() < 4 {
            Some(Err(CommandError::TooFewWords))
        } else if u16_of(w[1]) is None || u64_of(w[2]) is None || u8_of(w[3]) is None {
            None
        } else {
            Some(
                Ok(
                    SourceCommandModel::DataOverTime {
                        universe: u16_of(w[1])->0,
                        duration_millis: u64_of(w[2])->0,
                        priority: u8_of(w[3])->0,
                    },
                ),
            )
        }
    } else if w[0] == seq!['s'] {
        match u16_of(w[1]) {
            Some(u) => Some(Ok(SourceCommandModel::Sync { universe: u })),
            None => None,
        }
    } else if w[0] == seq!['u', 's'] {
        if w.len() < 3 {
            Some(Err(CommandError::TooFewWords))
        } else {
            match u16_of(w[1]) {
                Some(u) => Some(Ok(SourceCommandModel::UnicastSync { universe: u, dst: w[2] })),
                None => None,
            }
        }
    } else if w[0] == seq!['r'] {
        match u16_of(w[1]) {
            Some(u) => Some(Ok(SourceCommandModel::Register { universe: u })),
            None => None,
        }
    } else if w[0] == seq!['p'] {
        match parse_flag(w[1]) {
            Some(b) => Some(Ok(SourceCommandModel::Preview { on: b })),
            None => Some(Err(CommandError::BadFlag)),
        }
    } else if w[0] == seq!['q'] {
        match u16_of(w[1]) {
            Some(u) => if u == 0 {
                Some(Ok(SourceCommandModel::Quit))
            } else {
                Some(Ok(SourceCommandModel::Terminate { universe: u }))
            },
            None => None,
        }
    } else if w[0] == seq!['w'] {
        match u64_of(w[1]) {
            Some(m) => Some(Ok(SourceCommandModel::Sleep { millis: m })),
            None => None,
        }
    } else if w[0] == seq!['a'] {
        if w.len() < 3 {
            Some(Err(CommandError::TooFewWords))
        } else if u16_of(w[1]) is None || u8_of(w[2]) is None {
            None
        } else {
            Some(Ok(SourceCommandModel::AllData { universe: u16_of(w[1])->0, value: u8_of(w[2])->0 }))
        }
    } else if w[0] == seq!['t'] {
        if w.len() < 3 {
            Some(Err(CommandError::TooFewWords))
        } else if usize_of(w[1]) is None || u16_of(w[2]) is None {
            None
        } else {
            match preset_of(usize_of(w[1])->0) {
                Some(p) => Some(Ok(SourceCommandModel::TestPreset { preset: p, universe: u16_of(w[2])->0 })),
                None => Some(Err(CommandError::UnknownPreset)),
            }
        }
    } else {
        Some(Err(CommandError::UnknownCommand))
    }
}

/// The outcome `r` by its view.
pub open spec fn source_outcome(r: Option<Result<SourceCommand, CommandError>>) -> Option<Result<SourceCommandModel, CommandError>> {
    match r {
        None => None,
        Some(Ok(c)) => Some(Ok(c@)),
        Some(Err(e)) => Some(Err(e)),
    }
}

fn read_u16(w: &Vec<char>) -> (r: Option<u16>)
    ensures
        r == u16_of(w@),
{
    match read_unsigned(w, 0xffff) {
        Some(v) => Some(v as u16),
        None => None,
    }
}

fn read_u8(w: &Vec<char>) -> (r: Option<u8>)
    ensures
        r == u8_of(w@),
{
    match read_unsigned(w, 0xff) {
        Some(v) => Some(v as u8),
        None => None,
    }
}

fn read_u64(w: &Vec<char>) -> (r: Option<u64>)
    ensures
        r == u64_of(w@),
{
    read_unsigned(w, 0xffff_ffff_ffff_ffff)
}

fn read_usize(w: &Vec<char>) -> (r: Option<usize>)
    ensures
        r == usize_of(w@),
{
    match read_unsigned(w, usize::MAX as u64) {
        Some(v) => Some(v as usize),
        None => None,
    }
}

/// The words `ws` read as the sequence `w`.
pub open spec fn words_are(ws: Seq<Vec<char>>, w: Seq<Seq<char>>) -> bool {
    &&& ws.len() == w.len()
    &&& forall|k: int| 0 <= k < ws.len() ==> (#[trigger] ws[k])@ == w[k]
}

fn read_bytes(ws: &Vec<Vec<char>>, from: usize, Ghost(w): Ghost<Seq<Seq<char>>>) -> (r: Option<Vec<u8>>)
    requires
        words_are(ws@, w),
        from <= ws@.len(),
    ensures
        match bytes_of(w, from as int) {
            Some(b) => r is Some && r->0@ == b,
            None => r is None,
        },
{
    let mut out: Vec<u8> = Vec::new();
    let mut i: usize = from;
    while i < ws.len()
        invariant
            words_are(ws@, w),
            from <= i <= ws@.len(),
            out@.len() == i - from,
            forall|j: int| from <= j < i ==> (#[trigger] u8_of(w[j])) is Some,
            forall|j: int| 0 <= j < i - from ==> out@[j] == u8_of(w[from + j])->0,
        decreases ws@.len() - i,
    {
        match read_u8(&ws[i]) {
            Some(b) => {
                out.push(b);
            },
            None => {
                return None;
            },
        }
        i = i + 1;
    }
    assert(out@ =~= Seq::new((w.len() - from) as nat, |j: int| u8_of(w[from + j])->0));
    Some(out)
}

fn word_chars(w: &Vec<char>) -> (r: Vec<char>)
    ensures
        r@ == w@,
{
    let mut out: Vec<char> = Vec::new();
    let mut i: usize = 0;
    while i < w.len()
        invariant
            i <= w@.len(),
            out@ == w@.take(i as int),
        decreases w@.len() - i,
    {
        out.push(w[i]);
        i = i + 1;
        assert(out@ =~= w@.take(i as int));
    }
    assert(w@.take(w@.len() as int) =~= w@);
    out
}

fn is_key(w: &Vec<char>, a: char) -> (b: bool)
    ensures
        b == (w@ == seq![a]),
{
    let r = w.len() == 1 && w[0] == a;
    proof {
        if r {
            assert(w@ =~= seq![a]);
        }
    }
    r
}

fn is_key2(w: &Vec<char>, a: char, c: char) -> (b: bool)
    ensures
        b == (w@ == seq![a, c]),
{
    let r = w.len() == 2 && w[0] == a && w[1] == c;
    proof {
        if r {
            assert(w@ =~= seq![a, c]);
        }
    }
    r
}

fn preset_number(n: usize) -> (r: Option<TestPreset>)
    ensures
        r == preset_of(n),
{
    if n as u64 == TEST_PRESET_MOVING_CHANNELS {
        Some(TestPreset::MovingChannels)
    } else if n as u64 == TEST_PRESET_RAPID_CHANGES {
        Some(TestPreset::RapidChanges)
    } else if n as u64 == TEST_PRESET_HIGH_DATA_RATE {
        Some(TestPreset::HighDataRate)
    } else {
        None
    }
}

fn full_universe_of(v: &Vec<u8>) -> (r: Vec<u8>)
    requires
        v@.len() <= UNIVERSE_CHANNEL_CAPACITY,
    ensures
        r@ == full_universe(v@),
{
    let mut out: Vec<u8> = Vec::new();
    let mut i: usize = 0;
    while i < UNIVERSE_CHANNEL_CAPACITY
        invariant
            v@.len() <= UNIVERSE_CHANNEL_CAPACITY,
            i <= UNIVERSE_CHANNEL_CAPACITY,
            out@.len() == i,
            forall|j: int| 0 <= j < i ==> out@[j] == (if j < v@.len() { v@[j] } else { 0u8 }),
        decreases UNIVERSE_CHANNEL_CAPACITY - i,
    {
        if i < v.len() {
            out.push(v[i]);
        } else {
            out.push(0);
        }
        i = i + 1;
    }
    assert(out@ =~= full_universe(v@));
    out
}

/// The command of the demo source that the words `ws` make (see `source_command`).
fn read_source_command(ws: &Vec<Vec<char>>, Ghost(w): Ghost<Seq<Seq<char>>>) -> (r: Option<
    Result<SourceCommand, CommandError>,
>)
    requires
        words_are(ws@, w),
    ensures
        source_outcome(r) == source_command(w),
{
    let n = ws.len();
    if n < 2 {
        return Some(Err(CommandError::TooFewWords));
    }
    let k = &ws[0];
    if is_key(k, '#') {
        Some(Ok(SourceCommand::Ignore))
    } else if is_key(k, 'd') {
        let universe = match read_u16(&ws[1]) {
            Some(u) => u,
            None => return None,
        };
        if n < 4 {
            return Some(Err(CommandError::TooFewWords));
        }
        match (read_u16(&ws[2]), read_u8(&ws[3]), read_bytes(ws, 4, Ghost(w))) {
            (Some(sync_uni), Some(priority), Some(data)) => Some(
                Ok(SourceCommand::Data { universe, sync_uni, priority, data }),
            ),
            _ => None,
        }
    } else if is_key(k, 'f') {
        if n < 4 {
            return Some(Err(CommandError::TooFewWords));
        }
        match (read_u16(&ws[1]), read_u16(&ws[2]), read_u8(&ws[3]), read_bytes(ws, 4, Ghost(w))) {
            (Some(universe), Some(sync_uni), Some(priority), Some(values)) => {
                if values.len() > UNIVERSE_CHANNEL_CAPACITY {
                    return None;
                }
                let data = full_universe_of(&values);
                Some(Ok(SourceCommand::FullData { universe, sync_uni, priority, data }))
            },
            _ => None,
        }
    } else if is_key(k, 'u') {
        let universe = match read_u16(&ws[1]) {
            Some(u) => u,
            None => return None,
        };
        if n < 5 {
            return Some(Err(CommandError::TooFewWords));
        }
        match (read_u16(&ws[2]), read_u8(&ws[3]), read_bytes(ws, 5, Ghost(w))) {
            (Some(sync_uni), Some(priority), Some(data)) => {
                let dst = word_chars(&ws[4]);
                Some(Ok(SourceCommand::Unicast { universe, sync_uni, priority, dst, data }))
            },
            _ => None,
        }
    } else if is_key(k, 'x') {
        if n < 4 {
            return Some(Err(CommandError::TooFewWords));
        }
        match (read_u16(&ws[1]), read_u64(&ws[2]), read_u8(&ws[3])) {
            (Some(universe), Some(duration_millis), Some(priority)) => Some(
                Ok(SourceCommand::DataOverTime { universe, duration_millis, priority }),
            ),
            _ => None,
        }
    } else if is_key(k, 's') {
        match read_u16(&ws[1]) {
            Some(universe) => Some(Ok(SourceCommand::Sync { universe })),
            None => None,
        }
    } else if is_key2(k, 'u', 's') {
        if n < 3 {
            return Some(Err(CommandError::TooFewWords));
        }
        match read_u16(&ws[1]) {
            Some(universe) => {
                let dst = word_chars(&ws[2]);
                Some(Ok(SourceCommand::UnicastSync { universe, dst }))
            },
            None => None,
        }
    } else if is_key(k, 'r') {
        match read_u16(&ws[1]) {
            Some(universe) => Some(Ok(SourceCommand::Register { universe })),
            None => None,
        }
    } else if is_key(k, 'p') {
        match read_flag(&ws[1]) {
            Some(on) => Some(Ok(SourceCommand::Preview { on })),
            None => Some(Err(CommandError::BadFlag)),
        }
    } else if is_key(k, 'q') {
        match read_u16(&ws[1]) {
            Some(universe) => if universe == 0 {
                Some(Ok(SourceCommand::Quit))
            } else {
                Some(Ok(SourceCommand::Terminate { universe }))
            },
            None => None,
        }
    } else if is_key(k, 'w') {
        match read_u64(&ws[1]) {
            Some(millis) => Some(Ok(SourceCommand::Sleep { millis })),
            None => None,
        }
    } else if is_key(k, 'a') {
        if n < 3 {
            return Some(Err(CommandError::TooFewWords));
        }
        match (read_u16(&ws[1]), read_u8(&ws[2])) {
            (Some(universe), Some(value)) => Some(Ok(SourceCommand::AllData { universe, value })),
            _ => None,
        }
    } else if is_key(k, 't') {
        if n < 3 {
            return Some(Err(CommandError::TooFewWords));
        }
        match (read_usize(&ws[1]), read_u16(&ws[2])) {
            (Some(number), Some(universe)) => match preset_number(number) {
                Some(preset) => Some(Ok(SourceCommand::TestPreset { preset, universe })),
                None => Some(Err(CommandError::UnknownPreset)),
            },
            _ => None,
        }
    } else {
        Some(Err(CommandError::UnknownCommand))
    }
}

/// Whether the demo source gives up on the console line `line` (see `source_command`).
pub fn source_line_fails(line: &str) -> (b: bool)
    ensures
        b == (source_command(words(line@)) is None),
{
    let ws = split_words(line);
    read_source_command(&ws, Ghost(words(line@))).is_none()
}

/// The command of the demo source that the console line `line` gives, or why it is refused.
pub fn parse_source_line(line: &str) -> (r: Result<SourceCommand, CommandError>)
    requires
        source_command(words(line@)) is Some,
    ensures
        source_command(words(line@)) == Some(
            match r {
                Ok(c) => Ok(c@),
                Err(e) => Err(e),
            },
        ),
{
    let ws = split_words(line);
    match read_source_command(&ws, Ghost(words(line@))) {
        Some(r) => r,
        None => Err(CommandError::UnknownCommand),
    }
}

/// A command of the demo receiver.
#[derive(Debug, Clone, Copy, PartialEq, Eq, Structural)]
pub enum ReceiverCommand {
    /// `# ...`: the line is a comment.
    Ignore,
    /// `h`, or a blank line: show the usage text.
    Help,
    /// `r <timeout_secs>`: receive once (a timeout of 0 means none).
    Receive { timeout_secs: u64 },
    /// `c <timeout_secs> <count>`: receive `count` times.
    ReceiveRepeatedly { timeout_secs: u64, count: u64 },
    /// `s`: print the discovered sources.
    PrintSources,
    /// `x`: print the discovered sources without checking whether they timed out.
    PrintSourcesUnchecked,
    /// `q`: stop.
    Quit,
    /// `w <secs>`: sleep.
    Sleep { secs: u64 },
    /// `l <universe>`: listen to the universe.
    Listen { universe: u16 },
    /// `t <universe>`: stop listening to the universe.
    StopListening { universe: u16 },
    /// `p <true/false>`: set whether preview data is received.
    Preview { on: bool },
    /// `a <true/false>`: set whether discovered sources are announced.
    AnnounceDiscovered { on: bool },
}

/// What the demo receiver makes of a line with the words `w`: `None` where it gives
/// up on the line (a number that does not parse, a flag that is missing), else the
/// command or why the line is refused.
pub open spec fn receiver_command(w: Seq<Seq<char>>) -> Option<Result<ReceiverCommand, CommandError>> {
    if w.len() < 1 {
        Some(Ok(ReceiverCommand::Help))
    } else if w[0] == seq!['#'] {
        Some(Ok(ReceiverCommand::Ignore))
    } else if w[0] == seq!['h'] {
        Some(Ok(ReceiverCommand::Help))
    } else if w[0] == seq!['r'] {
        if w.len() < 2 {
            Some(Err(CommandError::TooFewWords))
        } else {
            match u64_of(w[1]) {
                Some(t) => Some(Ok(ReceiverCommand::Receive { timeout_secs: t })),
                None => None,
            }
        }
    } else if w[0] == seq!['c'] {
        if w.len() < 3 {
            Some(Err(CommandError::TooFewWords))
        } else if u64_of(w[1]) is None || u64_of(w[2]) is None {
            None
        } else {
            Some(Ok(ReceiverCommand::ReceiveRepeatedly { timeout_secs: u64_of(w[1])->0, count: u64_of(w[2])->0 }))
        }
    } else if w[0] == seq!['s'] {
        Some(Ok(ReceiverCommand::PrintSources))
    } else if w[0] == seq!['x'] {
        Some(Ok(ReceiverCommand::PrintSourcesUnchecked))
    } else if w[0] == seq!['q'] {
        Some(Ok(ReceiverCommand::Quit))
    } else if w[0] == seq!['w'] {
        if w.len() < 2 {
            Some(Err(CommandError::TooFewWords))
        } else {
            match u64_of(w[1]) {
                Some(t) => Some(Ok(ReceiverCommand::Sleep { secs: t })),
                None => None,
            }
        }
    } else if w[0] == seq!['l'] || w[0] == seq!['t'] {
        if w.len() < 2 {
            Some(Err(CommandError::TooFewWords))
        } else {
            match u16_of(w[1]) {
                Some(u) => if w[0] == seq!['l'] {
                    Some(Ok(ReceiverCommand::Listen { universe: u }))
                } else {
                    Some(Ok(ReceiverCommand::StopListening { universe: u }))
                },
                None => None,
            }
        }
    } else if w[0] == seq!['p'] || w[0] == seq!['a'] {
        if w.len() < 2 {
            None
        } else {
            match parse_flag(w[1]) {
                Some(b) => if w[0] == seq!['p'] {
                    Some(Ok(ReceiverCommand::Preview { on: b }))
                } else {
                    Some(Ok(ReceiverCommand::AnnounceDiscovered { on: b }))
                },
                None => Some(Err(CommandError::BadFlag)),
            }
        }
    } else {
        Some(Err(CommandError::UnknownCommand))
    }
}

/// The command of the demo receiver that the words `ws` make (see `receiver_command`).
fn read_receiver_command(ws: &Vec<Vec<char>>, Ghost(w): Ghost<Seq<Seq<char>>>) -> (r: Option<
    Result<ReceiverCommand, CommandError>,
>)
    requires
        words_are(ws@, w),
    ensures
        r == receiver_command(w),
{
    let n = ws.len();
    if n < 1 {
        return Some(Ok(ReceiverCommand::Help));
    }
    let k = &ws[0];
    if is_key(k, '#') {
        Some(Ok(ReceiverCommand::Ignore))
    } else if is_key(k, 'h') {
        Some(Ok(ReceiverCommand::Help))
    } else if is_key(k, 'r') {
        if n < 2 {
            return Some(Err(CommandError::TooFewWords));
        }
        match read_u64(&ws[1]) {
            Some(timeout_secs) => Some(Ok(ReceiverCommand::Receive { timeout_secs })),
            None => None,
        }
    } else if is_key(k, 'c') {
        if n < 3 {
            return Some(Err(CommandError::TooFewWords));
        }
        match (read_u64(&ws[1]), read_u64(&ws[2])) {
            (Some(timeout_secs), Some(count)) => Some(
                Ok(ReceiverCommand::ReceiveRepeatedly { timeout_secs, count }),
            ),
            _ => None,
        }
    } else if is_key(k, 's') {
        Some(Ok(ReceiverCommand::PrintSources))
    } else if is_key(k, 'x') {
        Some(Ok(ReceiverCommand::PrintSourcesUnchecked))
    } else if is_key(k, 'q') {
        Some(Ok(ReceiverCommand::Quit))
    } else if is_key(k, 'w') {
        if n < 2 {
            return Some(Err(CommandError::TooFewWords));
        }
        match read_u64(&ws[1]) {
            Some(secs) => Some(Ok(ReceiverCommand::Sleep { secs })),
            None => None,
        }
    } else if is_key(k, 'l') || is_key(k, 't') {
        if n < 2 {
            return Some(Err(CommandError::TooFewWords));
        }
        match read_u16(&ws[1]) {
            Some(universe) => if is_key(k, 'l') {
                Some(Ok(ReceiverCommand::Listen { universe }))
            } else {
                Some(Ok(ReceiverCommand::StopListening { universe }))
            },
            None => None,
        }
    } else if is_key(k, 'p') || is_key(k, 'a') {
        if n < 2 {
            return None;
        }
        match read_flag(&ws[1]) {
            Some(on) => if is_key(k, 'p') {
                Some(Ok(ReceiverCommand::Preview { on }))
            } else {
                Some(Ok(ReceiverCommand::AnnounceDiscovered { on }))
            },
            None => Some(Err(CommandError::BadFlag)),
        }
    } else {
        Some(Err(CommandError::UnknownCommand))
    }
}

/// Whether the demo receiver gives up on the console line `line` (see `receiver_command`).
pub fn receiver_line_fails(line: &str) -> (b: bool)
    ensures
        b == (receiver_command(words(line@)) is None),
{
    let ws = split_words(line);
    read_receiver_command(&ws, Ghost(words(line@))).is_none()
}

/// The command of the demo receiver that the console line `line` gives, or why it is refused.
pub fn parse_receiver_line(line: &str) -> (r: Result<ReceiverCommand, CommandError>)
    requires
        receiver_command(words(line@)) is Some,
    ensures
        receiver_command(words(line@)) == Some(r),
{
    let ws = split_words(line);
    match read_receiver_command(&ws, Ghost(words(line@))) {
        Some(r) => r,
        None => Err(CommandError::UnknownCommand),
    }
}

/// The receive timeout, in seconds, that the timeout argument `timeout_secs`
/// of a receive command asks for: 0 means no timeout.
pub fn receive_timeout(timeout_secs: u64) -> (r: Option<u64>)
    ensures
        r == (if timeout_secs == 0 {
            None
        } else {
            Some(timeout_secs)
        }),
{
    if timeout_secs == 0 {
        None
    } else {
        Some(timeout_secs)
    }
}

} // verus!
