use vstd::prelude::*;

use crate::cache::Name;
use crate::jenkins::{BuildDuration, BuildNumber, BuildUrl};
use crate::text::{
    contains, str_contains, decimal, decimal_string, first_space, space_from, starts_with,
    str_starts_with, trim, trim_of, trim_start, trim_start_of,
};
use vstd::string::*;

verus! {

/// The command of an inbound IRC message, as far as the dispatcher reads it.
#[derive(Debug)]
pub enum IrcCommand {
    /// `PRIVMSG target :body`.
    Privmsg(String, String),
    /// Any other command.
    Other,
}

/// An inbound IRC message: its command, plus what the IRC layer derived from
/// its prefix (the sender's nickname, and where a reply should go).
#[derive(Debug)]
pub struct IrcMessage {
    pub command: IrcCommand,
    pub source_nickname: Option<String>,
    pub response_target: Option<String>,
}

/// What producers hand to the dispatcher.
#[derive(Debug)]
pub enum Event {
    IncomingIrcMessage(IrcMessage),
    /// Server id, job name, result, build number, duration, url, destinations.
    UpdatedJob(String, Name, String, BuildNumber, BuildDuration, BuildUrl, Vec<String>),
}

/// An outbound `PRIVMSG`: destination and text.
#[derive(Debug)]
pub struct OutMessage {
    pub target: String,
    pub body: String,
}

/// A message as destination and text.
pub type Reply = (Seq<char>, Seq<char>);

impl View for OutMessage {
    type V = Reply;

    open spec fn view(&self) -> Reply {
        (self.target@, self.body@)
    }
}

/// What the dispatcher knows of itself when it handles an event: its current
/// nickname, the nicknames allowed to use `say`, and the seconds since start.
#[derive(Debug)]
pub struct Context {
    pub nickname: String,
    pub owners: Vec<String>,
    pub uptime: u64,
}

/// The replies of a list of outbound messages.
pub open spec fn replies_of(msgs: Seq<OutMessage>) -> Seq<Reply> {
    msgs.map_values(|m: OutMessage| m@)
}

/// The texts of a list of strings.
pub open spec fn strings_of(v: Seq<String>) -> Seq<Seq<char>> {
    v.map_values(|s: String| s@)
}

/// IRC channel names start with one of `#`, `&`, `+` and `!`.
pub open spec fn is_channel_name(s: Seq<char>) -> bool {
    s.len() > 0 && (s[0] == '#' || s[0] == '&' || s[0] == '+' || s[0] == '!')
}

/// A `PRIVMSG` is for the bot when it is sent to the bot directly, or when its
/// text starts with the bot's nickname once leading white space is dropped.
pub open spec fn addressed(nick: Seq<char>, target: Seq<char>, body: Seq<char>) -> bool {
    !is_channel_name(target) || starts_with(trim_start(body), nick)
}

/// The command in an addressed text: the nickname prefix, if present, is
/// dropped, and so is the surrounding white space.
pub open spec fn command_text(nick: Seq<char>, body: Seq<char>) -> Seq<char> {
    let b = trim_start(body);
    if starts_with(b, nick) {
        trim(b.subrange(nick.len() as int, b.len() as int))
    } else {
        trim(b)
    }
}

pub open spec fn uptime_text(uptime: u64) -> Seq<char> {
    "uptime = "@ + decimal(uptime as nat) + " seconds"@
}

/// Destination and text of a `say` command, whose arguments are `args`.
pub open spec fn say_parts(args: Seq<char>) -> Option<Reply> {
    let rest = trim(args);
    match space_from(rest, 0) {
        Some(k) => Some((rest.subrange(0, k), trim(rest.subrange(k + 1, rest.len() as int)))),
        None => None,
    }
}

/// The replies to the command `cmd`, sent by `source`, answered at `reply_to`.
pub open spec fn command_replies(
    cmd: Seq<char>,
    source: Seq<char>,
    reply_to: Seq<char>,
    owners: Seq<Seq<char>>,
    uptime: u64,
) -> Seq<Reply> {
    if contains(cmd, "uptime"@) {
        seq![(reply_to, uptime_text(uptime))]
    } else if starts_with(cmd, "say "@) && owners.contains(source) {
        match say_parts(cmd.subrange(4, cmd.len() as int)) {
            Some(r) => seq![r],
            None => seq![],
        }
    } else {
        seq![]
    }
}

/// The replies to an inbound IRC message.
pub open spec fn irc_replies(nick: Seq<char>, owners: Seq<Seq<char>>, uptime: u64, msg: IrcMessage) -> Seq<
    Reply,
> {
    match msg.command {
        IrcCommand::Privmsg(target, body) => {
            if addressed(nick, target@, body@) {
                match msg.response_target {
                    Some(to) => command_replies(
                        command_text(nick, body@),
                        match msg.source_nickname {
                            Some(s) => s@,
                            None => Seq::empty(),
                        },
                        to@,
                        owners,
                        uptime,
                    ),
                    None => seq![],
                }
            } else {
                seq![]
            }
        },
        IrcCommand::Other => seq![],
    }
}

/// The announcement of a new build.
pub open spec fn announcement(name: Seq<char>, server: Seq<char>, result: Seq<char>) -> Seq<char> {
    "New build for job '"@ + name + "' on '"@ + server + "'! Result: "@ + result
}

/// One announcement of the build to each destination, in order.
pub open spec fn job_replies(server: Seq<char>, name: Seq<char>, result: Seq<char>, notify: Seq<Seq<char>>) -> Seq<Reply> {
    notify.map_values(|d: Seq<char>| (d, announcement(name, server, result)))
}

/// The replies to an event.
pub open spec fn event_replies(ctx: Context, e: Event) -> Seq<Reply> {
    match e {
        Event::IncomingIrcMessage(m) => irc_replies(ctx.nickname@, strings_of(ctx.owners@), ctx.uptime, m),
        Event::UpdatedJob(server, name, result, _, _, _, notify) => job_replies(server@, name@, result@, strings_of(notify@)),
    }
}

/// Whether `s` names an IRC channel.
pub fn is_channel(s: &str) -> (r: bool)
    ensures
        r == is_channel_name(s@),
{
    if s.unicode_len() == 0 {
        return false;
    }
    let c = s.get_char(0);
    c == '#' || c == '&' || c == '+' || c == '!'
}

fn str_copy(s: &str) -> (r: String)
    ensures
        r@ == s@,
{
    String::from_str(s)
}

impl Context {
    /// Whether `nick` may use the `say` command.
    pub fn is_owner(&self, nick: &str) -> (r: bool)
        ensures
            r == strings_of(self.owners@).contains(nick@),
    {
        let n = str_copy(nick);
        let mut i: usize = 0;
        while i < self.owners.len()
            invariant
                0 <= i <= self.owners@.len(),
                n@ == nick@,
                forall|j: int| 0 <= j < i ==> (#[trigger] self.owners@[j])@ != nick@,
            decreases self.owners@.len() - i,
        {
            if self.owners[i] == n {
                assert(strings_of(self.owners@)[i as int] == nick@);
                return true;
            }
            i += 1;
        }
        proof {
            if strings_of(self.owners@).contains(nick@) {
                let j = choose|j: int|
                    0 <= j < self.owners@.len() && strings_of(self.owners@)[j] == nick@;
                assert(self.owners@[j]@ != nick@);
            }
        }
        false
    }

    /// Runs the command `incoming`, sent by `source_nick`; replies to `uptime` go to `reply_to`.
    pub fn process_msg(&self, source_nick: &str, reply_to: &str, incoming: &str) -> (r: Vec<OutMessage>)
        ensures
            replies_of(r@) == command_replies(
                incoming@,
                source_nick@,
                reply_to@,
                strings_of(self.owners@),
                self.uptime,
            ),
    {
        let mut out: Vec<OutMessage> = Vec::new();
        if str_contains(incoming, "uptime") {
            let mut body = String::from_str("uptime = ");
            let digits = decimal_string(self.uptime);
            body.append(digits.as_str());
            body.append(" seconds");
            out.push(OutMessage { target: str_copy(reply_to), body });
            assert(replies_of(out@) =~= seq![(reply_to@, uptime_text(self.uptime))]);
        } else if str_starts_with(incoming, "say ") && self.is_owner(source_nick) {
            proof {
                reveal_strlit("say ");
            }
            let args = incoming.substring_char(4, incoming.unicode_len());
            let rest = trim_of(args);
            match first_space(rest.as_str()) {
                Some(k) => {
                    let n = rest.as_str().unicode_len();
                    let chan = String::from_str(rest.as_str().substring_char(0, k));
                    let text = trim_of(rest.as_str().substring_char(k + 1, n));
                    out.push(OutMessage { target: chan, body: text });
                    assert(replies_of(out@) =~= seq![say_parts(args@)->Some_0]);
                },
                None => {
                    assert(replies_of(out@) =~= seq![]);
                },
            }
        } else {
            assert(replies_of(out@) =~= seq![]);
        }
        out
    }

    /// Handles an inbound IRC message: only a `PRIVMSG` addressed to the bot is answered.
    pub fn handle_irc(&self, message: IrcMessage) -> (r: Vec<OutMessage>)
        ensures
            replies_of(r@) == irc_replies(self.nickname@, strings_of(self.owners@), self.uptime, message),
            message.command matches IrcCommand::Privmsg(target, body) && is_channel_name(target@)
                && !starts_with(trim_start(body@), self.nickname@) ==> r@.len() == 0,
    {
        let ghost m = message;
        match message.command {
            IrcCommand::Privmsg(target, body) => {
                let start = trim_start_of(body.as_str());
                let is_for_me = str_starts_with(start.as_str(), self.nickname.as_str());
                if !is_channel(target.as_str()) || is_for_me {
                    match message.response_target {
                        Some(to) => {
                            let cmd = if is_for_me {
                                let n = self.nickname.as_str().unicode_len();
                                trim_of(start.as_str().substring_char(n, start.as_str().unicode_len()))
                            } else {
                                trim_of(start.as_str())
                            };
                            let source = match message.source_nickname {
                                Some(s) => s,
                                None => String::new(),
                            };
                            self.process_msg(source.as_str(), to.as_str(), cmd.as_str())
                        },
                        None => Vec::new(),
                    }
                } else {
                    let r = Vec::new();
                    assert(replies_of(r@) =~= seq![]);
                    r
                }
            },
            IrcCommand::Other => {
                let r = Vec::new();
                assert(replies_of(r@) =~= seq![]);
                r
            },
        }
    }

    /// Announces a new build of `name` on `server` to each destination of `notify`.
    pub fn handle_updated_job(&self, server: &String, name: &Name, result: &String, notify: &Vec<String>) -> (r: Vec<OutMessage>)
        ensures
            replies_of(r@) == job_replies(server@, name@, result@, strings_of(notify@)),
    {
        let mut out: Vec<OutMessage> = Vec::new();
        let mut i: usize = 0;
        while i < notify.len()
            invariant
                0 <= i <= notify@.len(),
                replies_of(out@) == job_replies(server@, name@, result@, strings_of(notify@.subrange(0, i as int))),
            decreases notify@.len() - i,
        {
            let mut body = String::from_str("New build for job '");
            body.append(name.0.as_str());
            body.append("' on '");
            body.append(server.as_str());
            body.append("'! Result: ");
            body.append(result.as_str());
            let ghost before = replies_of(out@);
            out.push(OutMessage { target: notify[i].clone(), body });
            proof {
                assert(replies_of(out@) =~= before.push(out@.last()@));
                assert(job_replies(server@, name@, result@, strings_of(notify@.subrange(0, i + 1)))
                    =~= job_replies(server@, name@, result@, strings_of(notify@.subrange(0, i as int))).push(out@.last()@));
            }
            i += 1;
        }
        assert(notify@.subrange(0, notify@.len() as int) =~= notify@);
        out
    }

    /// The messages to send in answer to one event, in order.
    pub fn handle(&self, event: Event) -> (r: Vec<OutMessage>)
        ensures
            replies_of(r@) == event_replies(*self, event),
    {
        match event {
            Event::IncomingIrcMessage(message) => self.handle_irc(message),
            Event::UpdatedJob(server, name, result, _, _, _, notify) => {
                self.handle_updated_job(&server, &name, &result, &notify)
            },
        }
    }
}

} // verus!
