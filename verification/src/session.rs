use vstd::prelude::*;
use vstd::utf8::encode_utf8;
use crate::format::{format_timestamp, timestamp_text, ClockTime, LineEnding};
use crate::linebuf::{
    decoded_lines, flushed_text, law_one_line_per_newline, newline_count, texts, trailing_bytes,
    LineAssembler,
};
use crate::text::lossy_utf8;
use crate::numbers::{decimal, parse_baud_rate, parsed_u32, push_decimal, trimmed};
use crate::serial::SerialEvent;
use crate::text::push_char;

verus! {

/// The baud rates offered without typing one in.
pub const BAUD_RATES: [u32; 6] = [9600, 19200, 38400, 57600, 115200, 230400];

/// The baud rate a session starts with.
pub const DEFAULT_BAUD_RATE: u32 = 115200;

/// How long the notice of a new port stays up, in nanoseconds.
pub const NEW_PORT_TOAST_TIMEOUT_NS: u64 = 8_000_000_000;

/// How soon to redraw while connected, in nanoseconds.
pub const CONNECTED_REPAINT_NS: u64 = 50_000_000;

/// How soon to redraw while the notice of a new port is up, in nanoseconds.
pub const TOAST_REPAINT_NS: u64 = 200_000_000;

/// The text in an optional string.
pub open spec fn text_of(s: Option<String>) -> Option<Seq<char>> {
    match s {
        Some(t) => Some(t@),
        None => None,
    }
}

/// A log entry as texts: (timestamp, line).
pub open spec fn entry_of(entry: (String, String)) -> (Seq<char>, Seq<char>) {
    (entry.0@, entry.1@)
}

/// The log as texts.
pub open spec fn log_of(lines: Seq<(String, String)>) -> Seq<(Seq<char>, Seq<char>)> {
    lines.map_values(|entry: (String, String)| entry_of(entry))
}

/// Lines that all carry the same timestamp.
pub open spec fn stamped(stamp: Seq<char>, lines: Seq<Seq<char>>) -> Seq<(Seq<char>, Seq<char>)> {
    lines.map_values(|line: Seq<char>| (stamp, line))
}

/// The timestamp written for lines received at `now`.
pub open spec fn stamp_of(now: ClockTime) -> Seq<char> {
    timestamp_text(
        now.hour_of() as nat,
        now.minute_of() as nat,
        now.second_of() as nat,
        now.nanosecond_of() as nat,
    )
}

/// The log after the unfinished line `partial`, if any, is written to it.
pub open spec fn log_after_flush(
    log: Seq<(Seq<char>, Seq<char>)>,
    partial: Seq<u8>,
    stamp: Seq<char>,
) -> Seq<(Seq<char>, Seq<char>)> {
    match flushed_text(partial) {
        Some(line) => log.push((stamp, line)),
        None => log,
    }
}

/// What a run of reader events does to (buffered bytes, log, error, closed),
/// the events taken in order, every line stamped with `stamp`.
pub open spec fn replay_events(
    partial: Seq<u8>,
    log: Seq<(Seq<char>, Seq<char>)>,
    error: Option<Seq<char>>,
    closed: bool,
    events: Seq<SerialEvent>,
    stamp: Seq<char>,
) -> (Seq<u8>, Seq<(Seq<char>, Seq<char>)>, Option<Seq<char>>, bool)
    decreases events.len(),
{
    if events.len() == 0 {
        (partial, log, error, closed)
    } else {
        let (p, l, e, c) = replay_events(partial, log, error, closed, events.drop_last(), stamp);
        match events.last() {
            SerialEvent::Data(bytes) => (
                trailing_bytes(p + bytes@),
                l + stamped(stamp, decoded_lines(p + bytes@)),
                e,
                c,
            ),
            SerialEvent::Error(message) => (p, l, Some(message@), c),
            SerialEvent::Closed => (p, l, e, true),
        }
    }
}

/// The state of the terminal between frames: what is chosen, what has been
/// received, and whether a port is open. The open port itself is held by the caller.
pub struct BaudApp {
    pub available_ports: Vec<String>,
    pub selected_port: Option<String>,
    pub baud_rate: u32,
    pub custom_baud_selected: bool,
    pub custom_baud_text: String,
    pub connected: bool,
    pub line_assembler: LineAssembler,
    /// Received lines as (timestamp, text).
    pub lines: Vec<(String, String)>,
    pub show_timestamps: bool,
    pub autoscroll: bool,
    pub input_text: String,
    pub line_ending: LineEnding,
    pub dark_mode: bool,
    pub error_message: Option<String>,
    /// The port named in the notice of a newly found port.
    pub new_port_toast: Option<String>,
}

impl BaudApp {
    /// The choices a user makes agree in `self` and `other`.
    pub open spec fn same_choices(&self, other: &BaudApp) -> bool {
        &&& self.available_ports == other.available_ports
        &&& self.selected_port == other.selected_port
        &&& self.baud_rate == other.baud_rate
        &&& self.custom_baud_selected == other.custom_baud_selected
        &&& self.custom_baud_text == other.custom_baud_text
        &&& self.show_timestamps == other.show_timestamps
        &&& self.autoscroll == other.autoscroll
        &&& self.input_text == other.input_text
        &&& self.line_ending == other.line_ending
        &&& self.dark_mode == other.dark_mode
        &&& self.new_port_toast == other.new_port_toast
    }

    /// The settings that only the user changes agree in `self` and `other`:
    /// typed baud rate, timestamps, autoscroll, line ending and theme.
    pub open spec fn same_settings(&self, other: &BaudApp) -> bool {
        &&& self.custom_baud_text == other.custom_baud_text
        &&& self.show_timestamps == other.show_timestamps
        &&& self.autoscroll == other.autoscroll
        &&& self.line_ending == other.line_ending
        &&& self.dark_mode == other.dark_mode
    }

    /// What was received agrees in `self` and `other`, and so does the
    /// connection; the error may differ.
    pub open spec fn same_session_but_error(&self, other: &BaudApp) -> bool {
        &&& self.connected == other.connected
        &&& self.line_assembler == other.line_assembler
        &&& self.lines == other.lines
    }

    /// What was received agrees in `self` and `other`, and so does the connection.
    pub open spec fn same_session(&self, other: &BaudApp) -> bool {
        &&& self.connected == other.connected
        &&& self.line_assembler@ == other.line_assembler@
        &&& self.lines == other.lines
        &&& self.error_message == other.error_message
    }

    /// A session as every launch starts it: no port chosen, 115200 baud, dark,
    /// timestamps off, autoscroll on, `\n` line ending, nothing received.
    pub fn new(available_ports: Vec<String>) -> (app: BaudApp)
        ensures
            app.available_ports == available_ports,
            app.selected_port is None,
            app.baud_rate == DEFAULT_BAUD_RATE,
            !app.custom_baud_selected,
            app.custom_baud_text@ == Seq::<char>::empty(),
            !app.connected,
            app.line_assembler@ == Seq::<u8>::empty(),
            app.lines@ == Seq::<(String, String)>::empty(),
            !app.show_timestamps,
            app.autoscroll,
            app.input_text@ == Seq::<char>::empty(),
            app.line_ending == LineEnding::Lf,
            app.dark_mode,
            app.error_message is None,
            app.new_port_toast is None,
    {
        BaudApp {
            available_ports,
            selected_port: None,
            baud_rate: DEFAULT_BAUD_RATE,
            custom_baud_selected: false,
            custom_baud_text: String::new(),
            connected: false,
            line_assembler: LineAssembler::new(),
            lines: Vec::new(),
            show_timestamps: false,
            autoscroll: true,
            input_text: String::new(),
            line_ending: LineEnding::Lf,
            dark_mode: true,
            error_message: None,
            new_port_toast: None,
        }
    }

    /// Whether a port is open.
    pub fn is_connected(&self) -> (connected: bool)
        ensures
            connected == self.connected,
    {
        self.connected
    }

    /// Writes a received line to the log, stamped with `now`.
    pub fn push_line(&mut self, text: String, now: ClockTime)
        ensures
            log_of(final(self).lines@) == log_of(old(self).lines@).push((stamp_of(now), text@)),
            final(self).same_choices(old(self)),
            final(self).connected == old(self).connected,
            final(self).line_assembler@ == old(self).line_assembler@,
            final(self).error_message == old(self).error_message,
    {
        let stamp = format_timestamp(now);
        self.lines.push((stamp, text));
        assert(log_of(self.lines@) =~= log_of(old(self).lines@).push((stamp_of(now), text@)));
    }

    /// Marks the port closed (the caller has closed it) and writes what was
    /// left of an unfinished line to the log.
    pub fn disconnect(&mut self, now: ClockTime)
        ensures
            !final(self).connected,
            final(self).line_assembler@ == Seq::<u8>::empty(),
            log_of(final(self).lines@) == log_after_flush(
                log_of(old(self).lines@),
                old(self).line_assembler@,
                stamp_of(now),
            ),
            old(self).line_assembler@.len() > 0 ==> log_of(final(self).lines@) == log_of(
                old(self).lines@,
            ).push((stamp_of(now), lossy_utf8(old(self).line_assembler@))),
            old(self).line_assembler@.len() == 0 ==> final(self).lines == old(self).lines,
            final(self).same_choices(old(self)),
            final(self).error_message == old(self).error_message,
    {
        self.connected = false;
        let flushed = self.line_assembler.flush();
        match flushed {
            Some(line) => self.push_line(line, now),
            None => {},
        }
    }

    /// The first step of connecting: the port and baud rate to open, or, when
    /// no port is chosen, `None` and the error "Select a port first".
    pub fn begin_connect(&mut self) -> (request: Option<(String, u32)>)
        ensures
            old(self).selected_port matches Some(port) ==> request == Some((port, old(self).baud_rate))
                && *final(self) == *old(self),
            old(self).selected_port is None ==> request is None && text_of(
                final(self).error_message,
            ) == Some("Select a port first"@) && final(self).same_choices(old(self))
                && final(self).connected == old(self).connected && final(self).line_assembler
                == old(self).line_assembler && final(self).lines == old(self).lines,
    {
        match &self.selected_port {
            Some(port) => Some((port.clone(), self.baud_rate)),
            None => {
                self.error_message = Some(String::from_str("Select a port first"));
                None
            },
        }
    }

    /// The last step of connecting, given how opening the port went: open and
    /// no error, or the error that opening gave.
    pub fn finish_connect(&mut self, outcome: Result<(), String>)
        ensures
            outcome is Ok ==> final(self).connected && final(self).error_message is None,
            outcome matches Err(e) ==> final(self).connected == old(self).connected && text_of(
                final(self).error_message,
            ) == Some(e@),
            final(self).same_choices(old(self)),
            final(self).line_assembler == old(self).line_assembler,
            final(self).lines == old(self).lines,
    {
        match outcome {
            Ok(()) => {
                self.connected = true;
                self.error_message = None;
            },
            Err(e) => {
                self.error_message = Some(e);
            },
        }
    }

    /// What Refresh does, and nothing else changes the list: the list of ports
    /// becomes `refreshed`, the fresh scan; nothing else changes.
    pub fn refresh_ports(&mut self, refreshed: Vec<String>)
        ensures
            final(self).available_ports == refreshed,
            final(self).same_session(old(self)),
            final(self).same_settings(old(self)),
            final(self).selected_port == old(self).selected_port,
            final(self).baud_rate == old(self).baud_rate,
            final(self).custom_baud_selected == old(self).custom_baud_selected,
            final(self).input_text == old(self).input_text,
            final(self).new_port_toast == old(self).new_port_toast,
    {
        self.available_ports = refreshed;
    }

    /// What the Connect/Disconnect button does: while connected, disconnects
    /// (the caller closes the port first) and asks to open nothing; otherwise it
    /// is the first step of connecting. Returns whether the caller must close the
    /// open port, and the port and baud rate to open, if any.
    pub fn press_connect_button(&mut self, now: ClockTime) -> (action: (bool, Option<(String, u32)>))
        ensures
            action.0 == old(self).connected,
            old(self).connected ==> action.1 is None && !final(self).connected
                && final(self).line_assembler@ == Seq::<u8>::empty() && log_of(final(self).lines@)
                == log_after_flush(
                log_of(old(self).lines@),
                old(self).line_assembler@,
                stamp_of(now),
            ) && final(self).error_message == old(self).error_message,
            !old(self).connected ==> (old(self).selected_port matches Some(port) ==> action.1
                == Some((port, old(self).baud_rate)) && *final(self) == *old(self)),
            !old(self).connected ==> (old(self).selected_port is None ==> action.1 is None
                && text_of(final(self).error_message) == Some("Select a port first"@)
                && final(self).same_session_but_error(old(self))),
            final(self).same_choices(old(self)),
    {
        if self.connected {
            self.disconnect(now);
            (true, None)
        } else {
            (false, self.begin_connect())
        }
    }

    /// Acts on the notice of a new port: closes the notice and the open port, if
    /// any, chooses the new port and asks to open it. Returns whether the caller
    /// must close the open port first, and the port and baud rate to open.
    pub fn switch_to_new_port(&mut self, port: String, now: ClockTime) -> (plan: (
        bool,
        String,
        u32,
    ))
        ensures
            plan.0 == old(self).connected,
            plan.1 == port,
            plan.2 == old(self).baud_rate,
            final(self).selected_port == Some(port),
            old(self).connected ==> !final(self).connected && final(self).line_assembler@
                == Seq::<u8>::empty() && log_of(final(self).lines@) == log_after_flush(
                log_of(old(self).lines@),
                old(self).line_assembler@,
                stamp_of(now),
            ),
            !old(self).connected ==> final(self).same_session(old(self)),
            final(self).error_message == old(self).error_message,
            final(self).same_settings(old(self)),
            final(self).baud_rate == old(self).baud_rate,
            final(self).custom_baud_selected == old(self).custom_baud_selected,
            final(self).available_ports == old(self).available_ports,
            final(self).input_text == old(self).input_text,
            final(self).new_port_toast is None,
    {
        let was_connected = self.connected;
        if was_connected {
            self.disconnect(now);
        }
        self.selected_port = Some(port.clone());
        self.new_port_toast = None;
        (was_connected, port, self.baud_rate)
    }

    /// Takes what the reader of the open port reported since the last frame, in
    /// order: data is assembled into lines stamped with `now`, an error is shown,
    /// and after the port closed the session is disconnected. Returns whether
    /// the port closed; the caller then releases it.
    pub fn apply_serial_events(&mut self, events: Vec<SerialEvent>, now: ClockTime) -> (closed:
        bool)
        ensures
            ({
                let (p, l, e, c) = replay_events(
                    old(self).line_assembler@,
                    log_of(old(self).lines@),
                    text_of(old(self).error_message),
                    false,
                    events@,
                    stamp_of(now),
                );
                &&& closed == c
                &&& text_of(final(self).error_message) == e
                &&& c ==> !final(self).connected && final(self).line_assembler@ == Seq::<u8>::empty()
                    && log_of(final(self).lines@) == log_after_flush(l, p, stamp_of(now))
                &&& !c ==> final(self).connected == old(self).connected
                    && final(self).line_assembler@ == p && log_of(final(self).lines@) == l
            }),
            final(self).connected ==> old(self).connected,
            final(self).same_choices(old(self)),
    {
        let stamp = format_timestamp(now);
        let mut closed = false;
        let ghost start = *self;
        assert(events@.take(0) =~= Seq::<SerialEvent>::empty());
        for i in 0..events.len()
            invariant
                stamp@ == stamp_of(now),
                self.same_choices(&start),
                self.connected == start.connected,
                (self.line_assembler@, log_of(self.lines@), text_of(self.error_message), closed)
                    == replay_events(
                    start.line_assembler@,
                    log_of(start.lines@),
                    text_of(start.error_message),
                    false,
                    events@.take(i as int),
                    stamp_of(now),
                ),
        {
            let ghost before = events@.take(i as int);
            assert(events@.take(i + 1).drop_last() =~= before);
            assert(events@.take(i + 1).last() == events@[i as int]);
            match &events[i] {
                SerialEvent::Data(bytes) => {
                    let ghost log_before = log_of(self.lines@);
                    let ghost partial_before = self.line_assembler@;
                    let received = self.line_assembler.push(bytes.as_slice());
                    let ghost added = texts(received@);
                    assert(log_before + stamped(stamp@, added.take(0)) =~= log_before);
                    for j in 0..received.len()
                        invariant
                            stamp@ == stamp_of(now),
                            added == texts(received@),
                            log_of(self.lines@) == log_before + stamped(stamp@, added.take(j as int)),
                            self.same_choices(&start),
                            self.connected == start.connected,
                            self.line_assembler@ == trailing_bytes(partial_before + bytes@),
                            text_of(self.error_message) == replay_events(
                                start.line_assembler@,
                                log_of(start.lines@),
                                text_of(start.error_message),
                                false,
                                before,
                                stamp_of(now),
                            ).2,
                    {
                        let ghost log_j = log_of(self.lines@);
                        self.lines.push((stamp.clone(), received[j].clone()));
                        assert(log_of(self.lines@) =~= log_j.push((stamp@, added[j as int])));
                        assert(stamped(stamp@, added.take(j + 1)) =~= stamped(
                            stamp@,
                            added.take(j as int),
                        ).push((stamp@, added[j as int])));
                    }
                    assert(added.take(received.len() as int) =~= added);
                },
                SerialEvent::Error(message) => {
                    self.error_message = Some(message.clone());
                },
                SerialEvent::Closed => {
                    closed = true;
                },
            }
        }
        assert(events@.take(events.len() as int) =~= events@);
        if closed {
            self.disconnect(now);
        }
        closed
    }

    /// Whether the notice of a new port, up for `elapsed_ns`, has been up too long.
    pub fn expire_toast(&mut self, elapsed_ns: u64)
        ensures
            elapsed_ns > NEW_PORT_TOAST_TIMEOUT_NS ==> final(self).new_port_toast is None,
            elapsed_ns <= NEW_PORT_TOAST_TIMEOUT_NS ==> final(self).new_port_toast == old(self).new_port_toast,
            final(self).same_session(old(self)),
            final(self).same_settings(old(self)),
            final(self).available_ports == old(self).available_ports,
            final(self).selected_port == old(self).selected_port,
            final(self).baud_rate == old(self).baud_rate,
            final(self).custom_baud_selected == old(self).custom_baud_selected,
            final(self).input_text == old(self).input_text,
    {
        if elapsed_ns > NEW_PORT_TOAST_TIMEOUT_NS {
            self.new_port_toast = None;
        }
    }

    /// How soon to draw the next frame without waiting for input: soon while
    /// connected, less soon while a notice is up (so that it can expire), and
    /// otherwise not at all.
    pub fn repaint_after_ns(&self) -> (wait: Option<u64>)
        ensures
            wait == if self.connected {
                Some(CONNECTED_REPAINT_NS)
            } else if self.new_port_toast is Some {
                Some(TOAST_REPAINT_NS)
            } else {
                None
            },
    {
        if self.connected {
            Some(CONNECTED_REPAINT_NS)
        } else if self.new_port_toast.is_some() {
            Some(TOAST_REPAINT_NS)
        } else {
            None
        }
    }

    /// Closes the notice of a new port.
    pub fn dismiss_toast(&mut self)
        ensures
            final(self).new_port_toast is None,
            final(self).same_session(old(self)),
            final(self).same_settings(old(self)),
            final(self).available_ports == old(self).available_ports,
            final(self).selected_port == old(self).selected_port,
            final(self).baud_rate == old(self).baud_rate,
            final(self).custom_baud_selected == old(self).custom_baud_selected,
            final(self).input_text == old(self).input_text,
    {
        self.new_port_toast = None;
    }

    /// Closes the error banner.
    pub fn dismiss_error(&mut self)
        ensures
            final(self).error_message is None,
            final(self).same_choices(old(self)),
            final(self).connected == old(self).connected,
            final(self).line_assembler == old(self).line_assembler,
            final(self).lines == old(self).lines,
    {
        self.error_message = None;
    }

    /// Chooses to type a baud rate; the rate in use stays until it is applied.
    pub fn choose_custom_baud(&mut self)
        ensures
            final(self).custom_baud_selected,
            final(self).baud_rate == old(self).baud_rate,
            final(self).same_session(old(self)),
            final(self).same_settings(old(self)),
            final(self).available_ports == old(self).available_ports,
            final(self).selected_port == old(self).selected_port,
            final(self).input_text == old(self).input_text,
            final(self).new_port_toast == old(self).new_port_toast,
    {
        self.custom_baud_selected = true;
    }

    /// Chooses one of the offered baud rates.
    pub fn select_baud(&mut self, rate: u32)
        ensures
            final(self).baud_rate == rate,
            !final(self).custom_baud_selected,
            final(self).same_session(old(self)),
            final(self).same_settings(old(self)),
            final(self).available_ports == old(self).available_ports,
            final(self).selected_port == old(self).selected_port,
            final(self).input_text == old(self).input_text,
            final(self).new_port_toast == old(self).new_port_toast,
    {
        self.baud_rate = rate;
        self.custom_baud_selected = false;
    }

    /// Takes the typed baud rate: white space around it is ignored and it must
    /// be a number that fits in a `u32`; otherwise the rate stays and the error
    /// "Custom baud must be a number" is shown.
    pub fn apply_custom_baud(&mut self)
        ensures
            parsed_u32(trimmed(old(self).custom_baud_text@)) matches Some(rate) ==> final(self).baud_rate == rate && final(self).error_message == old(self).error_message,
            parsed_u32(trimmed(old(self).custom_baud_text@)) is None ==> final(self).baud_rate == old(self).baud_rate && text_of(final(self).error_message) == Some(
                "Custom baud must be a number"@,
            ),
            final(self).same_settings(old(self)),
            final(self).custom_baud_selected == old(self).custom_baud_selected,
            final(self).available_ports == old(self).available_ports,
            final(self).selected_port == old(self).selected_port,
            final(self).input_text == old(self).input_text,
            final(self).new_port_toast == old(self).new_port_toast,
            final(self).connected == old(self).connected,
            final(self).line_assembler == old(self).line_assembler,
            final(self).lines == old(self).lines,
    {
        match parse_baud_rate(self.custom_baud_text.as_str()) {
            Some(rate) => {
                self.baud_rate = rate;
            },
            None => {
                self.error_message = Some(String::from_str("Custom baud must be a number"));
            },
        }
    }

    /// The bytes to send when the user asks to send: the typed text in UTF-8
    /// followed by the chosen line ending. Nothing is sent unless connected.
    pub fn send_request(&self, send_clicked: bool, enter_pressed: bool) -> (bytes: Option<Vec<u8>>)
        ensures
            bytes is Some <==> self.connected && (send_clicked || enter_pressed),
            bytes matches Some(b) ==> b@ == encode_utf8(self.input_text@) + self.line_ending.spec_bytes(),
    {
        if !(self.connected && (send_clicked || enter_pressed)) {
            return None;
        }
        let mut bytes = vstd::slice::slice_to_vec(self.input_text.as_str().as_bytes());
        let ending = self.line_ending.as_bytes();
        let ghost text_bytes = bytes@;
        for k in 0..ending.len()
            invariant
                bytes@ == text_bytes + ending@.take(k as int),
        {
            bytes.push(ending[k]);
            assert(bytes@ =~= text_bytes + ending@.take(k + 1));
        }
        assert(ending@.take(ending@.len() as int) =~= ending@);
        Some(bytes)
    }

    /// Takes how sending went: the typed text is cleared, or the error is shown.
    pub fn finish_send(&mut self, outcome: Result<(), String>)
        ensures
            outcome is Ok ==> final(self).input_text@ == Seq::<char>::empty() && final(self).error_message == old(self).error_message,
            outcome matches Err(e) ==> final(self).input_text == old(self).input_text && text_of(
                final(self).error_message,
            ) == Some(e@),
            final(self).same_settings(old(self)),
            final(self).available_ports == old(self).available_ports,
            final(self).selected_port == old(self).selected_port,
            final(self).baud_rate == old(self).baud_rate,
            final(self).custom_baud_selected == old(self).custom_baud_selected,
            final(self).new_port_toast == old(self).new_port_toast,
            final(self).connected == old(self).connected,
            final(self).line_assembler == old(self).line_assembler,
            final(self).lines == old(self).lines,
    {
        match outcome {
            Ok(()) => {
                self.input_text = String::new();
            },
            Err(e) => {
                self.error_message = Some(e);
            },
        }
    }

    /// Empties the log.
    pub fn clear_lines(&mut self)
        ensures
            final(self).lines@ == Seq::<(String, String)>::empty(),
            final(self).same_choices(old(self)),
            final(self).connected == old(self).connected,
            final(self).line_assembler == old(self).line_assembler,
            final(self).error_message == old(self).error_message,
    {
        self.lines = Vec::new();
    }

    /// The label of the port chooser: the chosen port, or "Select port".
    pub fn port_label(&self) -> (label: String)
        ensures
            label@ == match self.selected_port {
                Some(port) => port@,
                None => "Select port"@,
            },
    {
        match &self.selected_port {
            Some(port) => port.clone(),
            None => String::from_str("Select port"),
        }
    }

    /// The label of the baud chooser: "Custom", or the rate in decimal.
    pub fn baud_label(&self) -> (label: String)
        ensures
            label@ == if self.custom_baud_selected {
                "Custom"@
            } else {
                decimal(self.baud_rate as nat)
            },
    {
        if self.custom_baud_selected {
            String::from_str("Custom")
        } else {
            let mut label = String::new();
            push_decimal(&mut label, self.baud_rate);
            assert(label@ =~= decimal(self.baud_rate as nat));
            label
        }
    }

    /// The label of the connect button.
    pub fn connect_label(&self) -> (label: &'static str)
        ensures
            label@ == if self.connected {
                "Disconnect"@
            } else {
                "Connect"@
            },
    {
        if self.connected {
            "Disconnect"
        } else {
            "Connect"
        }
    }

    /// The label of the button on the notice of a new port.
    pub fn toast_action_label(&self) -> (label: &'static str)
        ensures
            label@ == if self.connected {
                "Switch"@
            } else {
                "Connect"@
            },
    {
        if self.connected {
            "Switch"
        } else {
            "Connect"
        }
    }

    /// Log entry `index` as shown: `[timestamp] text` when timestamps are on,
    /// else the text alone.
    pub fn display_line(&self, index: usize) -> (shown: String)
        requires
            index < self.lines@.len(),
        ensures
            shown@ == if self.show_timestamps {
                seq!['['] + self.lines@[index as int].0@ + seq![']', ' '] + self.lines@[index as int].1@
            } else {
                self.lines@[index as int].1@
            },
    {
        let entry = &self.lines[index];
        if self.show_timestamps {
            let mut shown = String::new();
            push_char(&mut shown, '[');
            shown.append(entry.0.as_str());
            push_char(&mut shown, ']');
            push_char(&mut shown, ' ');
            shown.append(entry.1.as_str());
            assert(shown@ =~= seq!['['] + entry.0@ + seq![']', ' '] + entry.1@);
            shown
        } else {
            entry.1.clone()
        }
    }
}

/// Events taken in two runs, frame after frame, do what they do taken in one.
pub proof fn law_events_in_runs(
    partial: Seq<u8>,
    log: Seq<(Seq<char>, Seq<char>)>,
    error: Option<Seq<char>>,
    closed: bool,
    first: Seq<SerialEvent>,
    second: Seq<SerialEvent>,
    stamp: Seq<char>,
)
    ensures
        ({
            let (p, l, e, c) = replay_events(partial, log, error, closed, first, stamp);
            replay_events(p, l, e, c, second, stamp)
        }) == replay_events(partial, log, error, closed, first + second, stamp),
    decreases second.len(),
{
    if second.len() == 0 {
        assert(first + second =~= first);
    } else {
        law_events_in_runs(partial, log, error, closed, first, second.drop_last(), stamp);
        assert((first + second).drop_last() =~= first + second.drop_last());
        assert((first + second).last() == second.last());
    }
}

/// A failed read, reported as an error and then the end of data, leaves the
/// message shown and the session closed, with nothing received lost.
pub proof fn law_read_failure_closes(
    partial: Seq<u8>,
    log: Seq<(Seq<char>, Seq<char>)>,
    error: Option<Seq<char>>,
    message: String,
    stamp: Seq<char>,
)
    ensures
        replay_events(
            partial,
            log,
            error,
            false,
            seq![SerialEvent::Error(message), SerialEvent::Closed],
            stamp,
        ) == (partial, log, Some(message@), true),
{
    let events = seq![SerialEvent::Error(message), SerialEvent::Closed];
    assert(events.drop_last() =~= seq![SerialEvent::Error(message)]);
    assert(events.drop_last().drop_last() =~= Seq::<SerialEvent>::empty());
    assert(replay_events(partial, log, error, false, events.drop_last().drop_last(), stamp) == (
        partial,
        log,
        error,
        false,
    ));
    assert(replay_events(partial, log, error, false, events.drop_last(), stamp) == (
        partial,
        log,
        Some(message@),
        false,
    ));
}

/// Disconnecting writes what is buffered, decoded, as exactly one more log
/// entry when something is buffered, and writes nothing otherwise.
pub proof fn law_flush_writes_the_unfinished_line(
    log: Seq<(Seq<char>, Seq<char>)>,
    partial: Seq<u8>,
    stamp: Seq<char>,
)
    ensures
        partial.len() > 0 ==> log_after_flush(log, partial, stamp) == log.push(
            (stamp, lossy_utf8(partial)),
        ),
        partial.len() == 0 ==> log_after_flush(log, partial, stamp) == log,
{
}

/// Data from the port adds to the log every line that it completes, in order,
/// each stamped: one entry per newline in the buffered bytes and the data,
/// and nothing else changes but the buffer.
pub proof fn law_data_adds_every_completed_line(
    partial: Seq<u8>,
    log: Seq<(Seq<char>, Seq<char>)>,
    error: Option<Seq<char>>,
    closed: bool,
    bytes: Vec<u8>,
    stamp: Seq<char>,
)
    ensures
        ({
            let (p, l, e, c) = replay_events(
                partial,
                log,
                error,
                closed,
                seq![SerialEvent::Data(bytes)],
                stamp,
            );
            &&& l.len() == log.len() + newline_count(partial + bytes@)
            &&& l.subrange(0, log.len() as int) == log
            &&& forall|k: int|
                0 <= k < newline_count(partial + bytes@) ==> #[trigger] l[log.len() + k] == (
                    stamp,
                    decoded_lines(partial + bytes@)[k],
                )
            &&& p == trailing_bytes(partial + bytes@)
            &&& e == error
            &&& c == closed
        }),
{
    let events = seq![SerialEvent::Data(bytes)];
    assert(events.drop_last() =~= Seq::<SerialEvent>::empty());
    assert(events.last() == SerialEvent::Data(bytes));
    assert(replay_events(partial, log, error, closed, events.drop_last(), stamp) == (
        partial,
        log,
        error,
        closed,
    ));
    assert(replay_events(partial, log, error, closed, events, stamp) == (
        trailing_bytes(partial + bytes@),
        log + stamped(stamp, decoded_lines(partial + bytes@)),
        error,
        closed,
    ));
    law_one_line_per_newline(partial + bytes@);
    let added = stamped(stamp, decoded_lines(partial + bytes@));
    assert((log + added).subrange(0, log.len() as int) =~= log);
}

/// An error from the port is shown and a closed port is noted; neither
/// touches the log or the buffer.
pub proof fn law_error_and_close_events(
    partial: Seq<u8>,
    log: Seq<(Seq<char>, Seq<char>)>,
    error: Option<Seq<char>>,
    closed: bool,
    message: String,
    stamp: Seq<char>,
)
    ensures
        replay_events(partial, log, error, closed, seq![SerialEvent::Error(message)], stamp) == (
            partial,
            log,
            Some(message@),
            closed,
        ),
        replay_events(partial, log, error, closed, seq![SerialEvent::Closed], stamp) == (
            partial,
            log,
            error,
            true,
        ),
{
    let err = seq![SerialEvent::Error(message)];
    let cls = seq![SerialEvent::Closed];
    assert(err.drop_last() =~= Seq::<SerialEvent>::empty());
    assert(cls.drop_last() =~= Seq::<SerialEvent>::empty());
    assert(err.last() == SerialEvent::Error(message));
    assert(cls.last() == SerialEvent::Closed);
    assert(replay_events(partial, log, error, closed, err.drop_last(), stamp) == (
        partial,
        log,
        error,
        closed,
    ));
    assert(replay_events(partial, log, error, closed, cls.drop_last(), stamp) == (
        partial,
        log,
        error,
        closed,
    ));
}

} // verus!
