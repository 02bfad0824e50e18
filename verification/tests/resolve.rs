use justfetch::info::SystemInfo;
use justfetch::resolver::{resolve, CommandExecutor, FactProvider, TemplateError};

/// Records every command it is handed and answers with a fixed reply.
struct StubExecutor {
    calls: Vec<String>,
    reply: Option<String>,
}

impl StubExecutor {
    fn replying(reply: &str) -> StubExecutor {
        StubExecutor { calls: Vec::new(), reply: Some(reply.to_string()) }
    }

    fn failing() -> StubExecutor {
        StubExecutor { calls: Vec::new(), reply: None }
    }
}

impl CommandExecutor for StubExecutor {
    fn execute(&mut self, command: &str) -> Option<String> {
        self.calls.push(command.to_string());
        self.reply.clone()
    }
}

/// Panics when consulted: for checks that nothing must be executed.
struct PanicExecutor;

impl CommandExecutor for PanicExecutor {
    fn execute(&mut self, _command: &str) -> Option<String> {
        panic!("the executor must not be consulted");
    }
}

fn record(username: &str, kernel: &str) -> SystemInfo {
    SystemInfo {
        distro_name: String::new(),
        distro_id: String::new(),
        distro_build_id: String::new(),
        username: username.to_string(),
        hostname: String::new(),
        shell: String::new(),
        kernel: kernel.to_string(),
        uptime: String::new(),
        total_mem: String::new(),
        cached_mem: String::new(),
        available_mem: String::new(),
        used_mem: String::new(),
    }
}

/// Counts its calls and answers with a fixed record.
struct StubFacts {
    calls: usize,
    username: String,
    kernel: String,
    available: bool,
}

impl StubFacts {
    fn with(username: &str, kernel: &str) -> StubFacts {
        StubFacts {
            calls: 0,
            username: username.to_string(),
            kernel: kernel.to_string(),
            available: true,
        }
    }

    fn missing() -> StubFacts {
        StubFacts { calls: 0, username: String::new(), kernel: String::new(), available: false }
    }
}

impl FactProvider for StubFacts {
    fn facts(&mut self) -> Option<SystemInfo> {
        self.calls += 1;
        if self.available {
            Some(record(&self.username, &self.kernel))
        } else {
            None
        }
    }
}

#[test]
fn plain_template_comes_back_byte_identical() {
    let mut ex = PanicExecutor;
    let mut fp = StubFacts::with("alice", "6.1.0");
    let r = resolve("no markup at all\njust text\n", &mut ex, &mut fp);
    assert_eq!(r, Ok("no markup at all\njust text\n".to_string()));
    assert_eq!(fp.calls, 0);
}

#[test]
fn empty_template_round_trips() {
    let mut ex = PanicExecutor;
    let mut fp = StubFacts::with("a", "b");
    let r = resolve("", &mut ex, &mut fp);
    assert_eq!(r, Ok(String::new()));
    assert_eq!(fp.calls, 0);
}

#[test]
fn placeholders_resolve_to_facts() {
    let mut ex = PanicExecutor;
    let mut fp = StubFacts::with("alice", "6.1.0");
    let r = resolve("User: [username]\nKernel: [kernel]\n", &mut ex, &mut fp);
    assert_eq!(r, Ok("User: alice\nKernel: 6.1.0\n".to_string()));
    assert_eq!(fp.calls, 1);
}

#[test]
fn unknown_bracketed_text_is_left_verbatim() {
    let mut ex = PanicExecutor;
    let mut fp = StubFacts::with("alice", "6.1.0");
    let r = resolve("[nonsense] [username]\n", &mut ex, &mut fp);
    assert_eq!(r, Ok("[nonsense] alice\n".to_string()));
}

#[test]
fn repeated_command_is_executed_once_batched() {
    let mut ex = StubExecutor::replying("hi");
    let mut fp = StubFacts::with("", "");
    let r = resolve("$cmd=echo hi\n$cmd=echo hi\n", &mut ex, &mut fp);
    assert_eq!(r, Ok("hi\nhi\n".to_string()));
    assert_eq!(ex.calls.len(), 1);
    assert_eq!(ex.calls[0], "echo \"$(echo hi)\"");
}

#[test]
fn distinct_commands_are_batched_in_first_occurrence_order() {
    let mut ex = StubExecutor::replying("one %split%two");
    let mut fp = StubFacts::with("", "");
    let r = resolve("$cmd=echo a\n$cmd=echo b\n$cmd=echo a\n", &mut ex, &mut fp);
    assert_eq!(r, Ok("one\ntwo\none\n".to_string()));
    assert_eq!(ex.calls.len(), 1);
    assert_eq!(ex.calls[0], "echo \"$(echo a) %split%$(echo b)\"");
}

#[test]
fn text_before_the_marker_is_kept() {
    let mut ex = StubExecutor::replying("out");
    let mut fp = StubFacts::with("", "");
    let r = resolve("note: $cmd=echo x\n", &mut ex, &mut fp);
    assert_eq!(r, Ok("note: out\n".to_string()));
}

#[test]
fn sentinel_collision_fails_before_any_execution() {
    let mut ex = PanicExecutor;
    let mut fp = StubFacts::with("", "");
    let r = resolve(" %split%\n$cmd=echo hi\n", &mut ex, &mut fp);
    assert_eq!(r, Err(TemplateError::SentinelCollision));
}

#[test]
fn empty_command_fails_before_any_execution() {
    let mut ex = PanicExecutor;
    let mut fp = StubFacts::with("", "");
    let r = resolve("$cmd=\n", &mut ex, &mut fp);
    assert_eq!(r, Err(TemplateError::EmptyCommand));
}

#[test]
fn executor_failure_is_fatal() {
    let mut ex = StubExecutor::failing();
    let mut fp = StubFacts::with("", "");
    let r = resolve("$cmd=echo hi\n", &mut ex, &mut fp);
    assert_eq!(r, Err(TemplateError::ExecutorFailure));
}

#[test]
fn wrong_segment_count_is_fatal() {
    let mut ex = StubExecutor::replying("only one segment");
    let mut fp = StubFacts::with("", "");
    let r = resolve("$cmd=echo a\n$cmd=echo b\n", &mut ex, &mut fp);
    assert_eq!(r, Err(TemplateError::SegmentMismatch));
}

#[test]
fn missing_facts_are_fatal() {
    let mut ex = PanicExecutor;
    let mut fp = StubFacts::missing();
    let r = resolve("Host: [host]\n", &mut ex, &mut fp);
    assert_eq!(r, Err(TemplateError::MissingFacts));
    assert_eq!(fp.calls, 1);
}

#[test]
fn color_markup_resolves_to_ansi_text() {
    let mut ex = PanicExecutor;
    let mut fp = StubFacts::with("", "");
    let r = resolve("rgb[\"red text\", 255, 0, 0]\n", &mut ex, &mut fp);
    assert_eq!(r, Ok("\u{1b}[38;2;255;0;0mred text\u{1b}[0m\n".to_string()));
}

#[test]
fn command_output_may_hold_placeholders() {
    let mut ex = StubExecutor::replying("[kernel]");
    let mut fp = StubFacts::with("", "6.1.0");
    let r = resolve("$cmd=uname -r\n", &mut ex, &mut fp);
    assert_eq!(r, Ok("6.1.0\n".to_string()));
}

#[test]
fn command_output_may_hold_color_markup() {
    let mut ex = StubExecutor::replying("rgb[\"x\", 1, 2, 3]");
    let mut fp = StubFacts::with("", "");
    let r = resolve("$cmd=echo markup\n", &mut ex, &mut fp);
    assert_eq!(r, Ok("\u{1b}[38;2;1;2;3mx\u{1b}[0m\n".to_string()));
}

#[test]
fn a_directive_on_an_unterminated_last_line_is_rewritten() {
    let mut ex = StubExecutor::replying("hi");
    let mut fp = StubFacts::with("", "");
    let r = resolve("$cmd=echo hi", &mut ex, &mut fp);
    assert_eq!(r, Ok("hi".to_string()));
    assert_eq!(ex.calls, vec!["echo \"$(echo hi)\"".to_string()]);
}

#[test]
fn the_command_pass_alone_rewrites_in_place() {
    let mut ex = StubExecutor::replying("a %split%b");
    let mut cfg = "$cmd=one\nkept\n$cmd=two\n".to_string();
    assert_eq!(justfetch::commands::substitute_commands(&mut cfg, &mut ex), Ok(()));
    assert_eq!(cfg, "a\nkept\nb\n");
}

#[test]
fn error_messages_describe_the_failure() {
    assert_eq!(
        TemplateError::SentinelCollision.message(),
        "the reserved sentinel occurs in the template"
    );
    assert_eq!(TemplateError::EmptyCommand.message(), "a command directive is empty");
}
