use rmux_server::keys::{AttachedKeyDecode, WindowsConsoleKeyEvent, KEYC_CTRL, LEFT_CTRL_PRESSED};
use rmux_server::live_input::{
    retained_clock_input_limit, retained_input_limit, AttachedLiveInputStep, BoundCommand,
    RetainLimit, RetainedClockInput,
};
use rmux_server::live_scan::{
    ExtendedKeyDecode, KeyForward, KittyGraphicsApcDecode, LiveAnswer, LiveEffect, LiveNext,
    MouseDecode, PrefixKeys, RetainedInput,
};
use rmux_server::live_step::{
    begin_live_step, handle_attached_live_input_step, LiveSurface, ScanModes, StepAnswer,
    StepConsole, StepMove, StepNext,
};

const CTRL_B: u64 = b'b' as u64 | KEYC_CTRL;
const CTRL_D: u64 = b'd' as u64 | KEYC_CTRL;
const NO_CONSOLE: StepConsole = StepConsole {
    key: None,
    control_d: None,
};

/// A client, its pane and its decoders.
struct Client {
    console: StepConsole,
    read_only: bool,
    open: Option<LiveSurface>,
    left: Option<Vec<u8>>,
    clock: bool,
    copy_mode: bool,
    detaches_on: Option<u64>,
    takes: Vec<u64>,
    prompt_after: Option<u64>,
    mouse: Option<MouseDecode>,
    kitty: KittyGraphicsApcDecode,
    keys: Vec<(u64, KeyForward)>,
    effects: Vec<LiveEffect>,
    told: Vec<LiveEffect>,
    left_clock: bool,
    detached: bool,
}

fn client() -> Client {
    Client {
        console: NO_CONSOLE,
        read_only: false,
        open: None,
        left: None,
        clock: false,
        copy_mode: false,
        detaches_on: None,
        takes: Vec::new(),
        prompt_after: None,
        mouse: None,
        kitty: KittyGraphicsApcDecode::NotKittyGraphics,
        keys: Vec::new(),
        effects: Vec::new(),
        told: Vec::new(),
        left_clock: false,
        detached: false,
    }
}

fn decode(input: &[u8]) -> AttachedKeyDecode {
    match input.first() {
        None => AttachedKeyDecode::Partial,
        Some(2) => AttachedKeyDecode::Matched {
            size: 1,
            key: CTRL_B,
        },
        Some(b) if *b < 0x80 && *b != 0x1b => AttachedKeyDecode::Matched {
            size: 1,
            key: u64::from(*b),
        },
        Some(_) => AttachedKeyDecode::Invalid,
    }
}

impl Client {
    fn prompts(&self) -> bool {
        self.prompt_after
            .is_some_and(|key| self.keys.iter().any(|(handled, _)| *handled == key))
    }

    fn tell_scan(&mut self, rest: &[u8], next: LiveNext) -> LiveAnswer {
        match next {
            LiveNext::Item => LiveAnswer::Nothing,
            LiveNext::Kitty => LiveAnswer::Kitty(if rest.starts_with(b"\x1b_G") {
                self.kitty
            } else {
                KittyGraphicsApcDecode::NotKittyGraphics
            }),
            LiveNext::MousePrefix => LiveAnswer::MousePrefix(rest.starts_with(b"\x1b[<")),
            LiveNext::Mouse => LiveAnswer::Mouse(self.mouse.expect("a mouse decoder")),
            LiveNext::ExtendedPrefix => LiveAnswer::ExtendedPrefix(rest.starts_with(b"\x1b[27;")),
            LiveNext::Extended => LiveAnswer::Extended(match rest.ends_with(b"u") {
                true => ExtendedKeyDecode::Matched {
                    size: rest.len(),
                    key: CTRL_D,
                },
                false => ExtendedKeyDecode::Partial,
            }),
            LiveNext::KeyTable => LiveAnswer::KeyTable(false),
            LiveNext::PrefixKeys => LiveAnswer::PrefixKeys(PrefixKeys {
                prefix: Some(CTRL_B),
                prefix2: None,
            }),
            LiveNext::PrefixKey => LiveAnswer::PrefixKey(decode(rest)),
            LiveNext::Key => LiveAnswer::Key(decode(rest)),
            LiveNext::Enter { key, .. } => LiveAnswer::Enter(key == u64::from(b'\r')),
            LiveNext::HandleKey { key, forward, .. } => {
                self.keys.push((key, forward));
                LiveAnswer::Handled(self.takes.contains(&key))
            }
            LiveNext::Prompt | LiveNext::FinalPrompt => LiveAnswer::Prompt(self.prompts()),
            end => panic!("{end:?} asks for nothing"),
        }
    }

    fn tell(&mut self, pending: &[u8], bytes: &[u8], next: StepNext) -> StepAnswer {
        match next {
            StepNext::FastPath => StepAnswer::FastPath(None),
            StepNext::ReadOnly => StepAnswer::Is(self.read_only),
            StepNext::Open(surface) => StepAnswer::Is(self.open == Some(surface)),
            StepNext::Surface(_) => StepAnswer::Left(self.left.take()),
            StepNext::ClockMode => StepAnswer::Is(self.clock),
            StepNext::ClockMousePrefix => StepAnswer::Is(pending.starts_with(b"\x1b[<")),
            StepNext::ClockMouse => StepAnswer::Mouse(self.mouse.expect("a mouse decoder")),
            StepNext::ClockKey => StepAnswer::Key(decode(pending)),
            StepNext::ClockPromptInput => StepAnswer::Consumed(None),
            StepNext::LeaveClock { .. } => {
                self.left_clock = true;
                StepAnswer::Done
            }
            StepNext::PaneModes => StepAnswer::Modes(ScanModes {
                copy_mode: self.copy_mode,
                focus_events: false,
            }),
            StepNext::ConsoleKey { key, forward } => {
                self.keys.push((key, forward));
                StepAnswer::Is(self.takes.contains(&key))
            }
            StepNext::ConsoleDecode { .. } => StepAnswer::Key(decode(bytes)),
            StepNext::KeyTable { .. } => StepAnswer::Is(false),
            StepNext::DetachPrefix { .. } => StepAnswer::Key(decode(bytes)),
            StepNext::DetachCommand { prefix_size, .. } => {
                StepAnswer::Key(decode(&bytes[prefix_size..]))
            }
            StepNext::DetachBinding { command_key, .. } => StepAnswer::Binding {
                prefix_keys: PrefixKeys {
                    prefix: Some(CTRL_B),
                    prefix2: None,
                },
                commands: (self.detaches_on == Some(command_key)).then(|| {
                    vec![BoundCommand {
                        name: "detach-client".to_owned(),
                        arguments: Vec::new(),
                    }]
                }),
            },
            StepNext::Detach => {
                self.detached = true;
                StepAnswer::Done
            }
            StepNext::Scan { cursor, next, .. } => {
                StepAnswer::Scan(self.tell_scan(&pending[cursor.offset..], next))
            }
        }
    }

    fn step(&mut self, pending: &mut Vec<u8>, bytes: &[u8]) -> StepMove {
        let mut next = begin_live_step(pending, bytes, self.console);
        loop {
            let answer = self.tell(pending, bytes, next);
            let turn =
                handle_attached_live_input_step(pending, bytes, self.console, next, answer);
            for effect in turn.effects {
                match effect {
                    LiveEffect::ClearFocusAlerts | LiveEffect::TellActiveClient => {
                        self.told.push(effect);
                    }
                    sent => self.effects.push(sent),
                }
            }
            match turn.outcome {
                StepMove::Next(asked) => next = asked,
                end => return end,
            }
        }
    }
}

fn ended(forwarded: bool) -> StepMove {
    StepMove::Ended(AttachedLiveInputStep::Complete(forwarded))
}

fn rerouted(bytes: &[u8], forwarded: bool) -> StepMove {
    StepMove::Ended(AttachedLiveInputStep::Reroute {
        bytes: bytes.to_vec(),
        forwarded,
    })
}

#[test]
fn a_step_writes_text_to_the_pane() {
    let mut typing = client();
    let mut pending = Vec::new();
    assert_eq!(typing.step(&mut pending, "h\u{e9}llo".as_bytes()), ended(true));
    assert_eq!(
        typing.effects,
        vec![LiveEffect::WriteInput { from: 0, to: 6 }]
    );
    assert!(pending.is_empty());
}

#[test]
fn alerts_are_cleared_before_the_client_is_told_of_as_active() {
    let mut typing = client();
    typing.step(&mut Vec::new(), b"x");
    assert_eq!(
        typing.told,
        vec![LiveEffect::ClearFocusAlerts, LiveEffect::TellActiveClient]
    );
    let turn = handle_attached_live_input_step(
        &mut Vec::new(),
        b"x",
        NO_CONSOLE,
        StepNext::ReadOnly,
        StepAnswer::Is(false),
    );
    assert_eq!(turn.effects, vec![LiveEffect::ClearFocusAlerts]);
    assert_eq!(
        turn.outcome,
        StepMove::Next(StepNext::Open(LiveSurface::Prompt))
    );
    let turn = handle_attached_live_input_step(
        &mut Vec::new(),
        b"x",
        NO_CONSOLE,
        StepNext::Open(LiveSurface::DisplayPanes),
        StepAnswer::Is(false),
    );
    assert_eq!(turn.effects, vec![LiveEffect::TellActiveClient]);
    assert_eq!(turn.outcome, StepMove::Next(StepNext::ClockMode));
}

#[test]
fn a_step_that_the_fast_path_took_is_over() {
    let mut pending = Vec::new();
    let turn = handle_attached_live_input_step(
        &mut pending,
        b"ls",
        NO_CONSOLE,
        StepNext::FastPath,
        StepAnswer::FastPath(Some(true)),
    );
    assert_eq!(turn.outcome, ended(true));
}

#[test]
fn read_only_input_is_dropped() {
    let mut watching = client();
    watching.read_only = true;
    let mut pending = b"\x1b[".to_vec();
    assert_eq!(watching.step(&mut pending, b"A"), ended(false));
    assert!(pending.is_empty());
    assert!(watching.effects.is_empty());
    assert!(watching.told.is_empty());
}

#[test]
fn an_open_surface_takes_the_input() {
    for surface in [
        LiveSurface::Prompt,
        LiveSurface::ModeTree,
        LiveSurface::Overlay,
        LiveSurface::DisplayPanes,
    ] {
        let mut busy = client();
        busy.open = Some(surface);
        assert_eq!(busy.step(&mut Vec::new(), b"q"), ended(false));
        assert_eq!(busy.told, vec![LiveEffect::ClearFocusAlerts]);
        busy.left = Some(b"rest".to_vec());
        assert_eq!(busy.step(&mut Vec::new(), b"qrest"), rerouted(b"rest", false));
        assert!(busy.effects.is_empty());
    }
}

#[test]
fn a_key_leaves_clock_mode() {
    let mut watching = client();
    watching.clock = true;
    let mut pending = Vec::new();
    assert_eq!(watching.step(&mut pending, b"q"), ended(false));
    assert!(watching.left_clock);
    assert!(pending.is_empty());
    assert_eq!(watching.step(&mut pending, b"qls"), rerouted(b"ls", false));
    assert!(pending.is_empty());
}

#[test]
fn a_paste_leaves_clock_mode_whole() {
    let mut watching = client();
    watching.clock = true;
    let mut pending = Vec::new();
    assert_eq!(
        watching.step(&mut pending, b"\x1b[200~x"),
        StepMove::RetainClock(RetainedClockInput::BracketedPaste)
    );
    assert_eq!(pending, b"\x1b[200~x");
    assert_eq!(
        watching.step(&mut pending, b"\x1b[201~"),
        rerouted(b"\x1b[200~x\x1b[201~", false)
    );
    assert!(pending.is_empty());
}

#[test]
fn a_mouse_report_leaves_clock_mode() {
    let mut watching = client();
    watching.clock = true;
    watching.mouse = Some(MouseDecode::Matched { size: 9 });
    assert_eq!(
        watching.step(&mut Vec::new(), b"\x1b[<0;1;1Mx"),
        rerouted(b"x", false)
    );
    watching.mouse = Some(MouseDecode::Partial);
    assert_eq!(
        watching.step(&mut Vec::new(), b"\x1b[<0;1"),
        StepMove::RetainClock(RetainedClockInput::Mouse)
    );
}

#[test]
fn a_prefix_and_a_detach_key_detach_at_once() {
    let mut leaving = client();
    leaving.detaches_on = Some(u64::from(b'd'));
    let mut pending = Vec::new();
    assert_eq!(leaving.step(&mut pending, b"\x02d"), ended(false));
    assert!(leaving.detached);
    assert!(leaving.keys.is_empty());

    let mut staying = client();
    staying.takes = vec![CTRL_B];
    assert_eq!(staying.step(&mut pending, b"\x02d"), rerouted(b"d", false));
    assert!(!staying.detached);
    assert_eq!(staying.keys, vec![(CTRL_B, KeyForward::Plain)]);
}

#[test]
fn the_rest_goes_to_a_prompt_that_a_key_opened() {
    let mut asking = client();
    asking.prompt_after = Some(CTRL_B);
    assert_eq!(asking.step(&mut Vec::new(), b"a\x02yes"), rerouted(b"yes", true));
    assert_eq!(
        asking.effects,
        vec![LiveEffect::WriteInput { from: 0, to: 1 }]
    );
}

#[test]
fn a_mouse_report_is_handled_and_the_rest_routed_anew() {
    let mut pointing = client();
    pointing.mouse = Some(MouseDecode::Matched { size: 9 });
    assert_eq!(
        pointing.step(&mut Vec::new(), b"a\x1b[<0;1;1Mb"),
        rerouted(b"b", true)
    );
    assert_eq!(
        pointing.effects,
        vec![
            LiveEffect::WriteInput { from: 0, to: 1 },
            LiveEffect::HandleMouse,
        ]
    );
    let mut pending = Vec::new();
    pointing.mouse = Some(MouseDecode::Overlong);
    assert_eq!(
        pointing.step(&mut pending, b"\x1b[<0"),
        StepMove::Retain {
            kind: RetainedInput::Mouse,
            forwarded: false,
        }
    );
    assert_eq!(pending, b"\x1b[<0");
}

#[test]
fn a_graphics_command_goes_to_the_target_alone() {
    let mut drawing = client();
    drawing.kitty = KittyGraphicsApcDecode::Matched { size: 5 };
    assert_eq!(drawing.step(&mut Vec::new(), b"\x1b_G\x1b\\"), ended(true));
    assert_eq!(
        drawing.effects,
        vec![LiveEffect::WriteTarget { from: 0, to: 5 }]
    );
    drawing.kitty = KittyGraphicsApcDecode::Partial;
    assert_eq!(
        drawing.step(&mut Vec::new(), b"\x1b_G"),
        StepMove::Retain {
            kind: RetainedInput::KittyGraphics,
            forwarded: false,
        }
    );
}

#[test]
fn what_was_kept_comes_before_new_bytes() {
    let mut typing = client();
    let mut pending = Vec::new();
    assert_eq!(
        typing.step(&mut pending, b"a\xe6\x97"),
        StepMove::Retain {
            kind: RetainedInput::Utf8,
            forwarded: true,
        }
    );
    assert_eq!(pending, b"\xe6\x97");
    typing.effects.clear();
    assert_eq!(typing.step(&mut pending, b"\xa5b"), ended(true));
    assert_eq!(
        typing.effects,
        vec![LiveEffect::WriteInput { from: 0, to: 4 }]
    );
}

#[test]
fn an_extended_key_follows_the_text_before_it() {
    let mut typing = client();
    let mut pending = Vec::new();
    assert_eq!(typing.step(&mut pending, b"a\x1b[27;2;65u"), ended(true));
    assert_eq!(typing.keys, vec![(CTRL_D, KeyForward::Plain)]);
    assert_eq!(
        typing.effects,
        vec![LiveEffect::WriteInput { from: 0, to: 1 }]
    );
    assert_eq!(
        typing.step(&mut pending, b"\x1b[27;2;65~"),
        StepMove::Retain {
            kind: RetainedInput::ExtendedKey,
            forwarded: false,
        }
    );
    assert_eq!(pending, b"\x1b[27;2;65~");
}

#[test]
fn a_console_key_is_bound_with_its_control() {
    let event = WindowsConsoleKeyEvent::new(0, 0, u16::from(b';'), LEFT_CTRL_PRESSED, 1);
    let mut typing = client();
    typing.console = StepConsole {
        key: Some(event),
        control_d: Some(CTRL_D),
    };
    assert_eq!(typing.step(&mut Vec::new(), b";"), ended(true));
    assert_eq!(
        typing.keys,
        vec![(u64::from(b';') | KEYC_CTRL, KeyForward::Console(event))]
    );
    assert_eq!(begin_live_step(&[], b";", typing.console), StepNext::ReadOnly);
    assert_eq!(
        begin_live_step(b"\x1b", b";", typing.console),
        StepNext::FastPath
    );
}

#[test]
fn end_of_input_is_a_key_of_the_console() {
    let mut typing = client();
    typing.console.control_d = Some(CTRL_D);
    typing.takes = vec![CTRL_D];
    assert_eq!(typing.step(&mut Vec::new(), b"\x04"), ended(false));
    assert_eq!(typing.keys, vec![(CTRL_D, KeyForward::ConsoleControlD)]);
}

#[test]
fn kept_input_has_a_limit_by_kind() {
    assert_eq!(
        retained_input_limit(RetainedInput::Utf8),
        (RetainLimit::Escape, "live utf-8")
    );
    assert_eq!(
        retained_input_limit(RetainedInput::KittyGraphics),
        (RetainLimit::Control, "live kitty graphics APC")
    );
    assert_eq!(
        retained_clock_input_limit(RetainedClockInput::Key),
        (RetainLimit::Escape, "clock mode input")
    );
}
