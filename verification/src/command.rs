//! Outgoing commands: a fixed verb plus argument text, and the builders
//! that assemble the message bodies the protocol expects.

use vstd::prelude::*;

verus! {

use vstd::string::StringExecFns;
use vstd::string::StringSliceAdditionalSpecFns;

/// The mathematical content of a command: its verb text and its argument
/// text.
pub ghost struct CommandModel {
    pub cmd: Seq<char>,
    pub args: Seq<char>,
}

/// An outgoing command: a verb (with its trailing space) and the argument
/// or body text that follows it on the wire.
pub struct Command {
    pub(crate) cmd: String,
    pub(crate) args: String,
}

impl View for Command {
    type V = CommandModel;

    closed spec fn view(&self) -> CommandModel {
        CommandModel { cmd: self.cmd@, args: self.args@ }
    }
}

/// The character for one decimal digit.
pub open spec fn dec_digit_char(d: nat) -> char {
    if d == 0 {
        '0'
    } else if d == 1 {
        '1'
    } else if d == 2 {
        '2'
    } else if d == 3 {
        '3'
    } else if d == 4 {
        '4'
    } else if d == 5 {
        '5'
    } else if d == 6 {
        '6'
    } else if d == 7 {
        '7'
    } else if d == 8 {
        '8'
    } else {
        '9'
    }
}

/// The decimal text of a number, most significant digit first.
pub open spec fn dec_chars(n: nat) -> Seq<char>
    decreases n,
{
    if n < 10 {
        seq![dec_digit_char(n)]
    } else {
        dec_chars(n / 10).push(dec_digit_char(n % 10))
    }
}

/// One decimal digit as text.
fn digit_str(d: usize) -> (r: &'static str)
    requires
        d < 10,
    ensures
        r@ == seq![dec_digit_char(d as nat)],
{
    proof {
        reveal_strlit("0");
        reveal_strlit("1");
        reveal_strlit("2");
        reveal_strlit("3");
        reveal_strlit("4");
        reveal_strlit("5");
        reveal_strlit("6");
        reveal_strlit("7");
        reveal_strlit("8");
        reveal_strlit("9");
    }
    if d == 0 {
        "0"
    } else if d == 1 {
        "1"
    } else if d == 2 {
        "2"
    } else if d == 3 {
        "3"
    } else if d == 4 {
        "4"
    } else if d == 5 {
        "5"
    } else if d == 6 {
        "6"
    } else if d == 7 {
        "7"
    } else if d == 8 {
        "8"
    } else {
        "9"
    }
}

/// The decimal text of `n`.
pub fn usize_to_string(n: usize) -> (r: String)
    ensures
        r@ == dec_chars(n as nat),
    decreases n,
{
    if n < 10 {
        digit_str(n).to_owned()
    } else {
        let mut s = usize_to_string(n / 10);
        s.append(digit_str(n % 10));
        proof {
            assert(s@ =~= dec_chars(n as nat));
        }
        s
    }
}

impl Command {
    /// The verb text, with its trailing space.
    pub fn verb(&self) -> (r: &str)
        ensures
            r@ == self@.cmd,
    {
        self.cmd.as_str()
    }

    /// The argument or body text that follows the verb.
    pub fn arg_text(&self) -> (r: &str)
        ensures
            r@ == self@.args,
    {
        self.args.as_str()
    }

    /// An owned copy of this command.
    pub fn to_owned(&self) -> (r: Command)
        ensures
            r@ == self@,
    {
        Command { cmd: self.cmd.clone(), args: self.args.clone() }
    }

    /// A command with no verb: the argument text is sent as given.
    pub fn from(value: &str) -> (r: Command)
        ensures
            r@.cmd == Seq::<char>::empty(),
            r@.args == value@,
    {
        Command { cmd: String::new(), args: value.to_owned() }
    }

    /// Executes an api command synchronously.
    pub fn api(s: &str) -> (r: Command)
        ensures
            r@.cmd == "api "@,
            r@.args == s@,
    {
        Command { cmd: "api ".to_owned(), args: s.to_owned() }
    }

    /// Only events matching the filter will be received; additive when
    /// called repeatedly.
    pub fn filter(s: &str) -> (r: Command)
        ensures
            r@.cmd == "filter "@,
            r@.args == s@,
    {
        Command { cmd: "filter ".to_owned(), args: s.to_owned() }
    }

    /// Removes a previously set event filter.
    pub fn filter_delete(s: &str) -> (r: Command)
        ensures
            r@.cmd == "filter delete "@,
            r@.args == s@,
    {
        Command { cmd: "filter delete ".to_owned(), args: s.to_owned() }
    }

    /// Subscribes to events in plain format.
    pub fn events(s: &str) -> (r: Command)
        ensures
            r@.cmd == "event plain "@,
            r@.args == s@,
    {
        Command { cmd: "event plain ".to_owned(), args: s.to_owned() }
    }

    /// Sends a custom event.
    pub fn sendevent(s: &str) -> (r: Command)
        ensures
            r@.cmd == "sendevent "@,
            r@.args == s@,
    {
        Command { cmd: "sendevent ".to_owned(), args: s.to_owned() }
    }

    /// Subscribes to events in JSON format.
    pub fn events_json(s: &str) -> (r: Command)
        ensures
            r@.cmd == "event json "@,
            r@.args == s@,
    {
        Command { cmd: "event json ".to_owned(), args: s.to_owned() }
    }

    /// Disables all event subscriptions.
    pub fn events_disable() -> (r: Command)
        ensures
            r@.cmd == "noevents "@,
            r@.args == Seq::<char>::empty(),
    {
        Command { cmd: "noevents ".to_owned(), args: String::new() }
    }

    /// Disconnects from the peer.
    pub fn disconnect() -> (r: Command)
        ensures
            r@.cmd == "exit "@,
            r@.args == Seq::<char>::empty(),
    {
        Command { cmd: "exit ".to_owned(), args: String::new() }
    }

    /// Authenticates with the given password.
    pub fn auth(password: &str) -> (r: Command)
        ensures
            r@.cmd == "auth "@,
            r@.args == password@,
    {
        Command { cmd: "auth ".to_owned(), args: password.to_owned() }
    }

    /// Executes an api command in the background; the result is delivered
    /// later as a background-job event carrying the given job identifier.
    pub fn bgapi(s: &str, event_id: &str) -> (r: Command)
        ensures
            r@.cmd == "bgapi "@,
            r@.args == s@ + "\nJob-UUID: "@ + event_id@ + "\n"@,
    {
        let mut args = s.to_owned();
        args.append("\nJob-UUID: ");
        args.append(event_id);
        args.append("\n");
        Command { cmd: "bgapi ".to_owned(), args }
    }

    /// Executes a dialplan application on a channel synchronously.
    pub fn execute(uuid: &str, app_name: &str, args: &str) -> (r: Command)
        ensures
            r@.cmd == "sendmsg "@,
            r@.args == sendmsg_text(
                uuid@,
                app_name@,
                args@,
                args.spec_bytes().len(),
                SendMessageConfigModel::default_model(),
            ),
    {
        let config = SendMessageConfig::default();
        Command::execute_with_config(uuid, app_name, args, config)
    }

    /// Executes a dialplan application asynchronously, tagged with an
    /// event identifier for the completion event.
    pub fn execute_aync(uuid: &str, app_name: &str, args: &str, event_id: &str) -> (r: Command)
        ensures
            r@.cmd == "sendmsg "@,
            r@.args == sendmsg_text(
                uuid@,
                app_name@,
                args@,
                args.spec_bytes().len(),
                SendMessageConfigModel {
                    send_async: true,
                    event_lock: true,
                    event_id: Some(event_id@),
                    loop_count: 1,
                },
            ),
    {
        let config = SendMessageConfig {
            send_async: true,
            event_lock: true,
            event_id: Some(event_id.to_owned()),
            loop_count: 1,
        };
        Command::execute_with_config(uuid, app_name, args, config)
    }

    /// Executes a dialplan application with explicit delivery options.
    pub fn execute_with_config(
        uuid: &str,
        app_name: &str,
        args: &str,
        config: SendMessageConfig,
    ) -> (r: Command)
        ensures
            r@.cmd == "sendmsg "@,
            r@.args == sendmsg_text(uuid@, app_name@, args@, args.spec_bytes().len(), config@),
    {
        let mut text = uuid.to_owned();
        text.append("\nexecute-app-name: ");
        text.append(app_name);
        text.append("\ncall-command: execute\ncontent-length: ");
        let arg_bytes = args.as_bytes();
        proof {
            vstd::slice::axiom_spec_len(arg_bytes);
        }
        let len_text = usize_to_string(arg_bytes.len());
        text.append(len_text.as_str());
        text.append("\ncontent-type: text/plain\n");
        let rendered = config.render();
        text.append(rendered.as_str());
        text.append("\n");
        text.append(args);
        proof {
            assert(text@ =~= sendmsg_text(
                uuid@,
                app_name@,
                args@,
                args.spec_bytes().len(),
                config@,
            ));
        }
        Command { cmd: "sendmsg ".to_owned(), args: text }
    }
}

/// The message text `execute_with_config` assembles: the channel id, the
/// application headers, the declared body length, the delivery options and
/// the body itself.
pub open spec fn sendmsg_text(
    uuid: Seq<char>,
    app_name: Seq<char>,
    body: Seq<char>,
    body_bytes: nat,
    config: SendMessageConfigModel,
) -> Seq<char> {
    uuid + "\nexecute-app-name: "@ + app_name + "\ncall-command: execute\ncontent-length: "@
        + dec_chars(body_bytes) + "\ncontent-type: text/plain\n"@ + spec_render_config(config)
        + "\n"@ + body
}

/// The mathematical content of the delivery options.
pub ghost struct SendMessageConfigModel {
    pub send_async: bool,
    pub event_lock: bool,
    pub event_id: Option<Seq<char>>,
    pub loop_count: nat,
}

impl SendMessageConfigModel {
    /// The options `Default` produces: synchronous, unlocked, untagged,
    /// one iteration.
    pub open spec fn default_model() -> SendMessageConfigModel {
        SendMessageConfigModel { send_async: false, event_lock: false, event_id: None, loop_count: 1 }
    }
}

/// Delivery options for `sendmsg`-style commands.
pub struct SendMessageConfig {
    pub(crate) send_async: bool,
    pub(crate) event_lock: bool,
    pub(crate) event_id: Option<String>,
    pub(crate) loop_count: usize,
}

impl View for SendMessageConfig {
    type V = SendMessageConfigModel;

    closed spec fn view(&self) -> SendMessageConfigModel {
        SendMessageConfigModel {
            send_async: self.send_async,
            event_lock: self.event_lock,
            event_id: match self.event_id {
                Some(ref s) => Some(s@),
                None => None,
            },
            loop_count: self.loop_count as nat,
        }
    }
}

/// The option lines the config contributes to a message: the asynchronous
/// flag always, the others only when set away from their defaults.
pub open spec fn spec_render_config(c: SendMessageConfigModel) -> Seq<char> {
    let async_line: Seq<char> = "async: "@ + (if c.send_async {
        "true"@
    } else {
        "false"@
    }) + "\n"@;
    let lock_line: Seq<char> = if c.event_lock {
        "event-lock: true\n"@
    } else {
        Seq::empty()
    };
    let loop_line: Seq<char> = if c.loop_count > 1 {
        "loop: "@ + dec_chars(c.loop_count) + "\n"@
    } else {
        Seq::empty()
    };
    let id_line: Seq<char> = match c.event_id {
        Some(id) => "Job-UUID: "@ + id + "\n"@,
        None => Seq::empty(),
    };
    async_line + lock_line + loop_line + id_line
}

impl Default for SendMessageConfig {
    fn default() -> (r: Self)
        ensures
            r@ == SendMessageConfigModel::default_model(),
    {
        SendMessageConfig { send_async: false, event_lock: false, event_id: None, loop_count: 1 }
    }
}

impl SendMessageConfig {
    /// The option lines this config contributes to a message body.
    pub fn render(&self) -> (r: String)
        ensures
            r@ == spec_render_config(self@),
    {
        let mut s = "async: ".to_owned();
        if self.send_async {
            s.append("true");
        } else {
            s.append("false");
        }
        s.append("\n");
        if self.event_lock {
            s.append("event-lock: true\n");
        }
        if self.loop_count > 1 {
            s.append("loop: ");
            let n = usize_to_string(self.loop_count);
            s.append(n.as_str());
            s.append("\n");
        }
        match &self.event_id {
            Some(id) => {
                s.append("Job-UUID: ");
                s.append(id.as_str());
                s.append("\n");
            },
            None => {},
        }
        proof {
            assert(s@ =~= spec_render_config(self@));
        }
        s
    }
}

} // verus!
