use lazydeck::clipboard::{clipboard_command, ClipboardAction, ClipboardRead, CommandOutcome, CLIPBOARD_COMMANDS};

fn run_all(outcomes: Vec<CommandOutcome>) -> (Vec<usize>, Result<String, String>) {
    let mut outcomes = outcomes.into_iter();
    let (mut state, mut action) = ClipboardRead::start();
    let mut ran = Vec::new();
    loop {
        match action {
            ClipboardAction::Done(result) => return (ran, result),
            ClipboardAction::Run(i) => {
                ran.push(i);
                let outcome = outcomes.next().unwrap_or(CommandOutcome::Missing);
                let (s, a) = state.step(outcome);
                state = s;
                action = a;
            }
        }
    }
}

#[test]
fn commands_are_tried_in_order() {
    assert_eq!(CLIPBOARD_COMMANDS, 8);
    assert_eq!(clipboard_command(0).0, "termux-clipboard-get");
    assert_eq!(clipboard_command(2), ("wl-paste", vec!["--no-newline"]));
    assert_eq!(clipboard_command(3), ("xclip", vec!["-selection", "clipboard", "-out"]));
    assert_eq!(clipboard_command(7), ("pwsh", vec!["-NoProfile", "-Command", "Get-Clipboard -Raw"]));
}

#[test]
fn the_first_success_gives_the_text() {
    let (ran, result) = run_all(vec![
        CommandOutcome::Missing,
        CommandOutcome::Exited("exit status: 1".to_string(), b"  no display \n".to_vec()),
        CommandOutcome::Succeeded("héllo".as_bytes().to_vec()),
    ]);
    assert_eq!(ran, vec![0, 1, 2]);
    assert_eq!(result, Ok("héllo".to_string()));
}

#[test]
fn invalid_output_bytes_are_replaced() {
    let (_, result) = run_all(vec![CommandOutcome::Succeeded(vec![b'a', 0xFF, b'b'])]);
    assert_eq!(result, Ok("a\u{FFFD}b".to_string()));
}

#[test]
fn failures_are_reported_for_each_command_tried() {
    let (ran, result) = run_all(vec![
        CommandOutcome::Missing,
        CommandOutcome::Exited("exit status: 1".to_string(), b"  no display \n".to_vec()),
        CommandOutcome::Missing,
        CommandOutcome::FailedToRun("permission denied".to_string()),
        CommandOutcome::Exited("exit status: 2".to_string(), Vec::new()),
    ]);
    assert_eq!(ran, (0..8).collect::<Vec<_>>());
    assert_eq!(
        result,
        Err("Failed to get clipboard content: pbpaste exited with exit status: 1: no display; \
             xclip failed to run: permission denied; xsel exited with exit status: 2"
            .to_string())
    );
}

#[test]
fn no_installed_command_names_them_all() {
    let (_, result) = run_all(Vec::new());
    assert_eq!(
        result,
        Err("Failed to get clipboard content: no clipboard command available (tried: termux-clipboard-get, \
             pbpaste, wl-paste, xclip, xsel, powershell.exe, powershell, pwsh)"
            .to_string())
    );
}
