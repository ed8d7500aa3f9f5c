//! The prompt of a node: checking a command's arguments, turning a typed
//! line into a command, and the message argument of `send`.

use vstd::prelude::*;
use crate::text::{str_eq, has_newline, push_str, split_words, words};
use crate::node::CmdType;
use crate::text::{chars_of, parse_u16, parse_addr, spec_parse_u16, spec_parse_addr};
use crate::backend::{HostBackend, RouterBackend, conn_at, send_effect, recv_effect, close_effect, connect_effect};
use crate::sockets::{SocketManager, listen_effect, accept_effect, accept1_effect, table_full, port_in_use, first_free};
use crate::tcp::{TcpState, TcpAddress};
use crate::conn_socket::{SocketId, SocketError, SocketEvent};
use crate::ipv4::PacketBasis;

verus! {

/// A result with its error message taken as characters.
pub open spec fn res_view(r: Result<(), String>) -> Result<(), Seq<char>> {
    match r {
        Ok(()) => Ok(()),
        Err(e) => Err(e@),
    }
}

/// The argument check of a command every node's prompt knows (`li`, `ln`,
/// `lr`, `up`, `down`, `send`) given `n` arguments, or `None` for another
/// command.
pub open spec fn base_arg_check(cmd: Seq<char>, n: nat) -> Option<Result<(), Seq<char>>> {
    if cmd == "li"@ {
        Some(if n != 0 { Err("li takes no arguments"@) } else { Ok(()) })
    } else if cmd == "ln"@ {
        Some(if n != 0 { Err("ln takes no arguments"@) } else { Ok(()) })
    } else if cmd == "lr"@ {
        Some(if n != 0 { Err("lr takes no arguments"@) } else { Ok(()) })
    } else if cmd == "up"@ {
        Some(if n != 1 { Err("Proper command format: up <ifname>"@) } else { Ok(()) })
    } else if cmd == "down"@ {
        Some(if n != 1 { Err("Proper command format: down <ifname>"@) } else { Ok(()) })
    } else if cmd == "send"@ {
        Some(if n < 2 { Err("Proper command format: send <addr> <message...>"@) } else { Ok(()) })
    } else {
        None
    }
}

/// The argument check of a socket command of a host's prompt (`a`, `c`,
/// `s`, `r`, `ls`, `cl`, `sf`, `rf`) given `n` arguments, or `None` for another
/// command.
pub open spec fn host_arg_check(cmd: Seq<char>, n: nat) -> Option<Result<(), Seq<char>>> {
    if cmd == "a"@ {
        Some(if n != 1 { Err("Proper command format: a <port>"@) } else { Ok(()) })
    } else if cmd == "c"@ {
        Some(if n != 2 { Err("Proper command format: c <vip> <port>"@) } else { Ok(()) })
    } else if cmd == "s"@ {
        Some(if n != 2 { Err("Proper command format: s <socket ID> <bytes>"@) } else { Ok(()) })
    } else if cmd == "r"@ {
        Some(if n != 2 { Err("Proper command format: a <socket ID> <numbytes>"@) } else { Ok(()) })
    } else if cmd == "ls"@ {
        Some(if n != 0 { Err("ls takes no arguments"@) } else { Ok(()) })
    } else if cmd == "cl"@ {
        Some(if n != 1 { Err("Proper command format: cl <socket ID>"@) } else { Ok(()) })
    } else if cmd == "sf"@ {
        Some(if n != 3 { Err("Proper command format: sf <file path> <addr> <port>"@) } else { Ok(()) })
    } else if cmd == "rf"@ {
        Some(if n != 2 { Err("Proper command format: rf <dest file> <port>"@) } else { Ok(()) })
    } else {
        None
    }
}

/// The check of a host's prompt: base commands, then socket commands;
/// anything else is invalid.
pub open spec fn host_args_ok(cmd: Seq<char>, n: nat) -> Result<(), Seq<char>> {
    match base_arg_check(cmd, n) {
        Some(r) => r,
        None => match host_arg_check(cmd, n) {
            Some(r) => r,
            None => Err("Invalid command"@),
        },
    }
}

/// The check of a router's prompt: base commands only.
pub open spec fn base_args_ok(cmd: Seq<char>, n: nat) -> Result<(), Seq<char>> {
    match base_arg_check(cmd, n) {
        Some(r) => r,
        None => Err("Invalid command"@),
    }
}

/// `Ok` when `ok`, else the error `msg`.
fn arity(ok: bool, msg: &str) -> (r: Result<(), String>)
    ensures
        res_view(r) == (if ok { Ok::<(), Seq<char>>(()) } else { Err(msg@) }),
{
    if ok {
        Ok(())
    } else {
        Err(msg.to_owned())
    }
}

/// The check of a base command (see `base_arg_check`).
fn check_base(cmd: &str, n: usize) -> (r: Option<Result<(), String>>)
    ensures
        match r {
            None => base_arg_check(cmd@, n as nat) is None,
            Some(x) => base_arg_check(cmd@, n as nat) == Some(res_view(x)),
        },
{
    if str_eq(cmd, "li") {
        Some(arity(n == 0, "li takes no arguments"))
    } else if str_eq(cmd, "ln") {
        Some(arity(n == 0, "ln takes no arguments"))
    } else if str_eq(cmd, "lr") {
        Some(arity(n == 0, "lr takes no arguments"))
    } else if str_eq(cmd, "up") {
        Some(arity(n == 1, "Proper command format: up <ifname>"))
    } else if str_eq(cmd, "down") {
        Some(arity(n == 1, "Proper command format: down <ifname>"))
    } else if str_eq(cmd, "send") {
        Some(arity(n >= 2, "Proper command format: send <addr> <message...>"))
    } else {
        None
    }
}

/// Checks the number of arguments of a command typed at a host's prompt:
/// `li`, `ln`, `lr` and `ls` take none; `up`, `down`, `a` and `cl` take
/// one; `c`, `s`, `r` and `rf` take two; `sf` takes three; `send` takes at
/// least two.
/// The error says how the command is used, or that it is not a command.
pub fn validate_args(cmd: &str, args: &Vec<String>) -> (r: Result<(), String>)
    ensures
        res_view(r) == host_args_ok(cmd@, args@.len()),
{
    let n = args.len();
    match check_base(cmd, n) {
        Some(r) => { return r; },
        None => {},
    }
    if str_eq(cmd, "a") {
        arity(n == 1, "Proper command format: a <port>")
    } else if str_eq(cmd, "c") {
        arity(n == 2, "Proper command format: c <vip> <port>")
    } else if str_eq(cmd, "s") {
        arity(n == 2, "Proper command format: s <socket ID> <bytes>")
    } else if str_eq(cmd, "r") {
        arity(n == 2, "Proper command format: a <socket ID> <numbytes>")
    } else if str_eq(cmd, "ls") {
        arity(n == 0, "ls takes no arguments")
    } else if str_eq(cmd, "cl") {
        arity(n == 1, "Proper command format: cl <socket ID>")
    } else if str_eq(cmd, "sf") {
        arity(n == 3, "Proper command format: sf <file path> <addr> <port>")
    } else if str_eq(cmd, "rf") {
        arity(n == 2, "Proper command format: rf <dest file> <port>")
    } else {
        Err("Invalid command".to_owned())
    }
}

/// Checks the number of arguments of a command typed at a router's prompt,
/// which knows only `li`, `ln`, `lr`, `up`, `down` and `send` (see
/// `validate_args`).
pub fn validate_base_args(cmd: &str, args: &Vec<String>) -> (r: Result<(), String>)
    ensures
        res_view(r) == base_args_ok(cmd@, args@.len()),
{
    match check_base(cmd, args.len()) {
        Some(r) => r,
        None => Err("Invalid command".to_owned()),
    }
}

/// The number of arguments a node's command takes, as the node's own
/// prompt checks it: `li`, `ln`, `lr` none, `up` and `down` one, `send` two
/// (an address and a one-word message).
pub open spec fn proper_num_check(cmd: Seq<char>, n: nat) -> Result<(), Seq<char>> {
    let proper: Option<nat> = if cmd == "li"@ || cmd == "ln"@ || cmd == "lr"@ {
        Some(0)
    } else if cmd == "up"@ || cmd == "down"@ {
        Some(1)
    } else if cmd == "send"@ {
        Some(2)
    } else {
        None
    };
    match proper {
        None => Err("Invalid command"@),
        Some(k) => if k != n { Err("Improper number of arguments"@) } else { Ok(()) },
    }
}

/// Checks the number of arguments of a node's command (see
/// `proper_num_check`).
pub fn proper_num_args(cmd: &str, args: &Vec<String>) -> (r: Result<(), String>)
    ensures
        res_view(r) == proper_num_check(cmd@, args@.len()),
{
    let proper_num: usize = if str_eq(cmd, "li") || str_eq(cmd, "ln") || str_eq(cmd, "lr") {
        0
    } else if str_eq(cmd, "up") || str_eq(cmd, "down") {
        1
    } else if str_eq(cmd, "send") {
        2
    } else {
        return Err("Invalid command".to_owned());
    };
    if proper_num != args.len() {
        Err("Improper number of arguments".to_owned())
    } else {
        Ok(())
    }
}

/// Whether `c` is the command that the words `ws` of a checked line name.
pub open spec fn expected_cmd(c: CmdType, ws: Seq<Seq<char>>) -> bool {
    let w = ws[0];
    if w == "li"@ {
        c is Li
    } else if w == "ln"@ {
        c is Ln
    } else if w == "lr"@ {
        c is Lr
    } else if w == "up"@ {
        c matches CmdType::Up(s) && s@ == ws[1]
    } else if w == "down"@ {
        c matches CmdType::Down(s) && s@ == ws[1]
    } else {
        c matches CmdType::Send(a, m) && a@ == ws[1] && m@ == ws[2]
    }
}

/// Turns a line typed at a node's prompt into the command for the node: the
/// first word names the command and the others are its arguments. An empty
/// line, an unknown command and a wrong number of arguments are refused
/// with a message.
pub fn execute_command(cmd: &str) -> (r: Result<CmdType, String>)
    ensures
        ({
            let ws = words(cmd@);
            &&& ws.len() == 0 ==> (r matches Err(e) && e@ == "No command input"@)
            &&& ws.len() > 0 ==> match proper_num_check(ws[0], (ws.len() - 1) as nat) {
                Err(m) => (r matches Err(e) && e@ == m),
                Ok(_) => (r matches Ok(c) && expected_cmd(c, ws)),
            }
        }),
{
    let mut split_cmd = split_words(cmd);
    let ghost ws = words(cmd@);
    proof {
        assert(split_cmd@.len() == ws.len()) by {
            assert(split_cmd@.map_values(|w: String| w@).len() == split_cmd@.len());
        }
    }
    if split_cmd.len() == 0 {
        return Err("No command input".to_owned());
    }
    let ghost all = split_cmd@;
    proof {
        assert(all.map_values(|w: String| w@)[0] == ws[0]);
        assert forall|j: int| 0 <= j < all.len() implies #[trigger] all[j]@ == ws[j] by {
            assert(all.map_values(|w: String| w@)[j] == ws[j]);
        }
    }
    let c = split_cmd.remove(0);
    let mut args = split_cmd;
    proof {
        assert(c@ == ws[0]);
        assert forall|j: int| 0 <= j < args@.len() implies #[trigger] args@[j]@ == ws[j + 1] by {
            assert(args@[j] == all[j + 1]);
        }
    }
    match proper_num_args(c.as_str(), &args) {
        Err(e) => { return Err(e); },
        Ok(()) => {},
    }
    if str_eq(c.as_str(), "li") {
        Ok(CmdType::Li)
    } else if str_eq(c.as_str(), "ln") {
        Ok(CmdType::Ln)
    } else if str_eq(c.as_str(), "lr") {
        Ok(CmdType::Lr)
    } else if str_eq(c.as_str(), "up") {
        Ok(CmdType::Up(args.remove(0)))
    } else if str_eq(c.as_str(), "down") {
        Ok(CmdType::Down(args.remove(0)))
    } else if str_eq(c.as_str(), "send") {
        let a = args.remove(0);
        let m = args.remove(0);
        Ok(CmdType::Send(a, m))
    } else {
        Err("Improper number of arguments".to_owned())
    }
}

/// The words `ws` joined by single spaces, skipping the space before the
/// first non-empty part.
pub open spec fn join_words(ws: Seq<Seq<char>>) -> Seq<char>
    decreases ws.len(),
{
    if ws.len() == 0 {
        Seq::empty()
    } else {
        let j = join_words(ws.drop_last());
        if j.len() == 0 {
            ws.last()
        } else {
            j + seq![' '] + ws.last()
        }
    }
}

/// How many of the words `ws`, from the first, hold no line break.
pub open spec fn newline_free_len(ws: Seq<Seq<char>>) -> nat
    decreases ws.len(),
{
    if ws.len() == 0 || ws[0].contains('\n') {
        0
    } else {
        1 + newline_free_len(ws.drop_first())
    }
}

/// The count of leading words without a line break is the position of the
/// first word with one (or the number of words).
proof fn lemma_newline_free_len(ws: Seq<Seq<char>>, i: int)
    requires
        0 <= i <= ws.len(),
        forall|j: int| 0 <= j < i ==> !(#[trigger] ws[j]).contains('\n'),
        i < ws.len() ==> ws[i].contains('\n'),
    ensures
        newline_free_len(ws) == i,
    decreases i,
{
    if i > 0 {
        assert forall|j: int| 0 <= j < i - 1 implies !(#[trigger] ws.drop_first()[j]).contains('\n') by {
            assert(ws.drop_first()[j] == ws[j + 1]);
        }
        if i - 1 < ws.drop_first().len() {
            assert(ws.drop_first()[i - 1] == ws[i]);
        }
        lemma_newline_free_len(ws.drop_first(), i - 1);
    }
}

/// Splits the arguments of `send` into the address (the first argument,
/// taken out of `args`) and the message: the remaining arguments joined by
/// spaces, up to the first one that holds a line break.
pub fn parse_send(args: &mut Vec<String>) -> (r: (String, String))
    requires
        old(args)@.len() >= 1,
    ensures
        r.0 == old(args)@[0],
        final(args)@ == old(args)@.drop_first(),
        ({
            let rest = old(args)@.drop_first().map_values(|s: String| s@);
            r.1@ == join_words(rest.take(newline_free_len(rest) as int))
        }),
{
    let addr = args.remove(0);
    proof { assert(args@ =~= old(args)@.drop_first()); }
    let ghost rest = args@.map_values(|s: String| s@);
    let mut rest_str = String::new();
    let mut empty = true;
    let mut i: usize = 0;
    while i < args.len()
        invariant
            rest == args@.map_values(|s: String| s@),
            args@ == old(args)@.drop_first(),
            old(args)@.len() >= 1,
            addr == old(args)@[0],
            i <= args@.len(),
            rest_str@ == join_words(rest.take(i as int)),
            empty == (rest_str@.len() == 0),
            forall|j: int| 0 <= j < i ==> !(#[trigger] rest[j]).contains('\n'),
        decreases args@.len() - i,
    {
        let s = &args[i];
        proof {
            assert(rest[i as int] == s@);
            assert(rest.take(i + 1).drop_last() =~= rest.take(i as int));
        }
        if has_newline(s.as_str()) {
            proof { lemma_newline_free_len(rest, i as int); }
            return (addr, rest_str);
        }
        if !empty {
            push_str(&mut rest_str, " ");
            proof { reveal_strlit(" "); }
        }
        push_str(&mut rest_str, s.as_str());
        let s_chars = crate::text::chars_of(s.as_str());
        empty = empty && s_chars.len() == 0;
        proof {
            assert(rest_str@ =~= join_words(rest.take(i + 1)));
        }
        i = i + 1;
    }
    proof {
        lemma_newline_free_len(rest, i as int);
    }
    (addr, rest_str)
}

/// How many arguments a command takes.
#[derive(Clone, Copy, Debug, PartialEq, Eq, Structural)]
pub enum NumArgs {
    Exactly(usize),
    /// At least one.
    Any,
}

/// Whether `n` arguments suit `num_args`.
pub open spec fn spec_num_args_ok(num_args: NumArgs, n: nat) -> bool {
    match num_args {
        NumArgs::Exactly(k) => k == n,
        NumArgs::Any => n > 0,
    }
}

/// The handler a command runs.
#[derive(Clone, Copy, Debug, PartialEq, Eq, Structural)]
pub enum Handler {
    Li,
    Ln,
    Lr,
    Up,
    Down,
    Send,
    /// Listen on a port and accept on it.
    A,
    /// Connect.
    C,
    /// List the sockets.
    Ls,
    /// Send on a socket.
    S,
    /// Receive on a socket.
    R,
    /// Send a file.
    Sf,
    /// Receive a file.
    Rf,
    /// Close a socket.
    Cl,
}

/// A command of the prompt: the handler it runs and the arguments it takes.
#[derive(Clone, Copy, Debug, PartialEq, Eq, Structural)]
pub struct CommandData {
    pub handler: Handler,
    pub num_args: NumArgs,
}

/// The map a list of named commands makes, later names overriding earlier
/// ones.
pub open spec fn commands_map(s: Seq<(Seq<char>, CommandData)>) -> Map<Seq<char>, CommandData>
    decreases s.len(),
{
    if s.len() == 0 {
        Map::empty()
    } else {
        commands_map(s.drop_last()).insert(s.last().0, s.last().1)
    }
}

/// A command as its name's characters and its data.
pub open spec fn command_entry(c: (String, CommandData)) -> (Seq<char>, CommandData) {
    (c.0@, c.1)
}

/// The entry of the last command named `name` is the one the map keeps; a
/// name that no command has is not in the map.
proof fn lemma_commands_map_last(s: Seq<(Seq<char>, CommandData)>, name: Seq<char>, i: int)
    requires
        -1 <= i < s.len(),
        forall|j: int| i < j < s.len() ==> (#[trigger] s[j]).0 != name,
        i >= 0 ==> s[i].0 == name,
    ensures
        i >= 0 ==> commands_map(s).contains_key(name) && commands_map(s)[name] == s[i].1,
        i < 0 ==> !commands_map(s).contains_key(name),
    decreases s.len(),
{
    if s.len() > 0 && i < s.len() - 1 {
        assert forall|j: int| i < j < s.len() - 1 implies (#[trigger] s.drop_last()[j]).0 != name by {
            assert(s.drop_last()[j] == s[j]);
        }
        assert(s[s.len() - 1].0 != name);
        lemma_commands_map_last(s.drop_last(), name, i);
    }
}

/// The commands a prompt knows, by name.
#[derive(Debug)]
pub struct CommandTable {
    pub entries: Vec<(String, CommandData)>,
}

/// Why a typed line is refused.
#[derive(Debug)]
pub enum ReplError {
    /// The line holds no word.
    NoCommandInput,
    /// No command has this name.
    InvalidCommand(String),
    /// The command takes another number of arguments.
    ImproperArgs(String),
}

impl CommandTable {
    /// The commands by name.
    pub open spec fn view(&self) -> Map<Seq<char>, CommandData> {
        commands_map(self.entries@.map_values(|c: (String, CommandData)| command_entry(c)))
    }

    /// No commands.
    pub fn new() -> (t: CommandTable)
        ensures
            t.view() == Map::<Seq<char>, CommandData>::empty(),
    {
        let t = CommandTable { entries: Vec::new() };
        assert(t.entries@.map_values(|c: (String, CommandData)| command_entry(c)) =~= Seq::empty());
        t
    }

    /// Adds (or replaces) the command `name`.
    pub fn insert(&mut self, name: String, cd: CommandData)
        ensures
            final(self).view() == old(self).view().insert(name@, cd),
    {
        let ghost n = name@;
        self.entries.push((name, cd));
        proof {
            assert(self.entries@.map_values(|c: (String, CommandData)| command_entry(c))
                =~= old(self).entries@.map_values(|c: (String, CommandData)| command_entry(c)).push((n, cd)));
            let m = old(self).entries@.map_values(|c: (String, CommandData)| command_entry(c));
            assert(m.push((n, cd)).drop_last() =~= m);
        }
    }

    /// Adds every command of `commands`, in order.
    pub fn insert_all(&mut self, commands: Vec<(String, CommandData)>)
        ensures
            final(self).view() == commands_map(
                old(self).entries@.map_values(|c: (String, CommandData)| command_entry(c))
                    + commands@.map_values(|c: (String, CommandData)| command_entry(c)),
            ),
    {
        let ghost e0 = self.entries@;
        for c in it: commands
            invariant
                self.entries@ == e0 + it.seq().take(it.index() as int),
                it.seq() == commands@,
        {
            self.entries.push(c);
            proof {
                assert(self.entries@ =~= e0 + it.seq().take(it.index() + 1));
            }
        }
        proof {
            assert(self.entries@ =~= e0 + commands@);
            assert(self.entries@.map_values(|c: (String, CommandData)| command_entry(c))
                =~= e0.map_values(|c: (String, CommandData)| command_entry(c))
                    + commands@.map_values(|c: (String, CommandData)| command_entry(c)));
        }
    }

    /// The command named `name`.
    pub fn get(&self, name: &str) -> (r: Option<CommandData>)
        ensures
            r is Some <==> self.view().contains_key(name@),
            r matches Some(cd) ==> cd == self.view()[name@],
    {
        let ghost s = self.entries@.map_values(|c: (String, CommandData)| command_entry(c));
        let mut i: usize = self.entries.len();
        while i > 0
            invariant
                s == self.entries@.map_values(|c: (String, CommandData)| command_entry(c)),
                i <= self.entries@.len(),
                forall|j: int| i <= j < s.len() ==> (#[trigger] s[j]).0 != name@,
            decreases i,
        {
            i = i - 1;
            proof { assert(s[i as int] == command_entry(self.entries@[i as int])); }
            if str_eq(self.entries[i].0.as_str(), name) {
                proof { lemma_commands_map_last(s, name@, i as int); }
                return Some(self.entries[i].1);
            }
        }
        proof { lemma_commands_map_last(s, name@, -1); }
        None
    }

    /// The handler for command `cmd` with `n` arguments: refused when no
    /// command has that name or it takes another number of arguments.
    pub fn handle_cmd(&self, cmd: &String, n: usize) -> (r: Result<Handler, ReplError>)
        ensures
            !self.view().contains_key(cmd@) ==> (r matches Err(ReplError::InvalidCommand(c)) && c@ == cmd@),
            self.view().contains_key(cmd@) && !spec_num_args_ok(self.view()[cmd@].num_args, n as nat)
                ==> (r matches Err(ReplError::ImproperArgs(c)) && c@ == cmd@),
            self.view().contains_key(cmd@) && spec_num_args_ok(self.view()[cmd@].num_args, n as nat)
                ==> r == Ok::<Handler, ReplError>(self.view()[cmd@].handler),
    {
        let cd = match self.get(cmd.as_str()) {
            Some(cd) => cd,
            None => { return Err(ReplError::InvalidCommand(cmd.clone())); },
        };
        let ok = match cd.num_args {
            NumArgs::Exactly(k) => k == n,
            NumArgs::Any => n > 0,
        };
        if !ok {
            return Err(ReplError::ImproperArgs(cmd.clone()));
        }
        Ok(cd.handler)
    }

    /// Reads a typed line: its first word names the command and the others
    /// are the arguments handed to its handler.
    pub fn execute_command(&self, line: &str) -> (r: Result<(Handler, Vec<String>), ReplError>)
        ensures
            ({
                let ws = words(line@);
                let m = self.view();
                &&& ws.len() == 0 ==> (r matches Err(ReplError::NoCommandInput))
                &&& ws.len() > 0 && !m.contains_key(ws[0]) ==> (r matches Err(ReplError::InvalidCommand(c)) && c@ == ws[0])
                &&& ws.len() > 0 && m.contains_key(ws[0]) && !spec_num_args_ok(m[ws[0]].num_args, (ws.len() - 1) as nat)
                    ==> (r matches Err(ReplError::ImproperArgs(c)) && c@ == ws[0])
                &&& ws.len() > 0 && m.contains_key(ws[0]) && spec_num_args_ok(m[ws[0]].num_args, (ws.len() - 1) as nat)
                    ==> (r matches Ok((h, args)) && h == m[ws[0]].handler
                        && args@.map_values(|a: String| a@) == ws.drop_first())
            }),
    {
        let mut split_cmd = split_words(line);
        let ghost ws = words(line@);
        let ghost all = split_cmd@;
        proof {
            assert(all.map_values(|w: String| w@).len() == all.len());
        }
        if split_cmd.len() == 0 {
            return Err(ReplError::NoCommandInput);
        }
        proof { assert(all.map_values(|w: String| w@)[0] == ws[0]); }
        let cmd = split_cmd.remove(0);
        let args = split_cmd;
        proof {
            assert(args@.map_values(|a: String| a@) =~= ws.drop_first()) by {
                assert forall|j: int| 0 <= j < args@.len() implies #[trigger] args@[j]@ == ws.drop_first()[j] by {
                    assert(args@[j] == all[j + 1]);
                    assert(all.map_values(|w: String| w@)[j + 1] == ws[j + 1]);
                }
            }
        }
        let h = self.handle_cmd(&cmd, args.len())?;
        Ok((h, args))
    }
}

/// The name, handler and number of arguments of each command every prompt
/// knows.
pub open spec fn base_commands_spec() -> Seq<(Seq<char>, CommandData)> {
    seq![
        ("li"@, CommandData { handler: Handler::Li, num_args: NumArgs::Exactly(0) }),
        ("ln"@, CommandData { handler: Handler::Ln, num_args: NumArgs::Exactly(0) }),
        ("lr"@, CommandData { handler: Handler::Lr, num_args: NumArgs::Exactly(0) }),
        ("up"@, CommandData { handler: Handler::Up, num_args: NumArgs::Exactly(1) }),
        ("down"@, CommandData { handler: Handler::Down, num_args: NumArgs::Exactly(1) }),
        ("send"@, CommandData { handler: Handler::Send, num_args: NumArgs::Any }),
    ]
}

/// The socket commands of a host's prompt.
pub open spec fn host_commands_spec() -> Seq<(Seq<char>, CommandData)> {
    seq![
        ("a"@, CommandData { handler: Handler::A, num_args: NumArgs::Exactly(1) }),
        ("c"@, CommandData { handler: Handler::C, num_args: NumArgs::Exactly(2) }),
        ("ls"@, CommandData { handler: Handler::Ls, num_args: NumArgs::Exactly(0) }),
        ("s"@, CommandData { handler: Handler::S, num_args: NumArgs::Exactly(2) }),
        ("r"@, CommandData { handler: Handler::R, num_args: NumArgs::Exactly(2) }),
        ("sf"@, CommandData { handler: Handler::Sf, num_args: NumArgs::Exactly(3) }),
        ("rf"@, CommandData { handler: Handler::Rf, num_args: NumArgs::Exactly(2) }),
        ("cl"@, CommandData { handler: Handler::Cl, num_args: NumArgs::Exactly(1) }),
    ]
}

/// Appends a command.
fn push_command(v: &mut Vec<(String, CommandData)>, name: &str, handler: Handler, num_args: NumArgs)
    ensures
        final(v)@.map_values(|c: (String, CommandData)| command_entry(c))
            == old(v)@.map_values(|c: (String, CommandData)| command_entry(c)).push((name@, CommandData { handler, num_args })),
{
    v.push((name.to_owned(), CommandData { handler, num_args }));
    proof {
        assert(v@.map_values(|c: (String, CommandData)| command_entry(c))
            =~= old(v)@.map_values(|c: (String, CommandData)| command_entry(c)).push((name@, CommandData { handler, num_args })));
    }
}

/// The commands every prompt knows: `li`, `ln`, `lr` (no arguments), `up`,
/// `down` (one), `send` (at least one).
pub fn get_base_commands() -> (v: Vec<(String, CommandData)>)
    ensures
        v@.map_values(|c: (String, CommandData)| command_entry(c)) == base_commands_spec(),
{
    let mut v: Vec<(String, CommandData)> = Vec::new();
    push_command(&mut v, "li", Handler::Li, NumArgs::Exactly(0));
    push_command(&mut v, "ln", Handler::Ln, NumArgs::Exactly(0));
    push_command(&mut v, "lr", Handler::Lr, NumArgs::Exactly(0));
    push_command(&mut v, "up", Handler::Up, NumArgs::Exactly(1));
    push_command(&mut v, "down", Handler::Down, NumArgs::Exactly(1));
    push_command(&mut v, "send", Handler::Send, NumArgs::Any);
    proof {
        assert(v@.map_values(|c: (String, CommandData)| command_entry(c)) =~= base_commands_spec());
    }
    v
}

/// The commands of a host's prompt: the base commands, then `a` (a port),
/// `c` (an address and a port), `ls`, `s` (a socket and data), `r` (a
/// socket and a count), `sf` (a file, an address, a port), `rf` (a file and
/// a port), `cl` (a socket).
pub fn get_all_host_commands() -> (v: Vec<(String, CommandData)>)
    ensures
        v@.map_values(|c: (String, CommandData)| command_entry(c)) == base_commands_spec() + host_commands_spec(),
{
    let mut v = get_base_commands();
    push_command(&mut v, "a", Handler::A, NumArgs::Exactly(1));
    push_command(&mut v, "c", Handler::C, NumArgs::Exactly(2));
    push_command(&mut v, "ls", Handler::Ls, NumArgs::Exactly(0));
    push_command(&mut v, "s", Handler::S, NumArgs::Exactly(2));
    push_command(&mut v, "r", Handler::R, NumArgs::Exactly(2));
    push_command(&mut v, "sf", Handler::Sf, NumArgs::Exactly(3));
    push_command(&mut v, "rf", Handler::Rf, NumArgs::Exactly(2));
    push_command(&mut v, "cl", Handler::Cl, NumArgs::Exactly(1));
    proof {
        assert(v@.map_values(|c: (String, CommandData)| command_entry(c)) =~= base_commands_spec() + host_commands_spec());
    }
    v
}

/// The UTF-8 bytes of `s`.
pub fn utf8_bytes(s: &String) -> (v: Vec<u8>)
    ensures
        v@ == vstd::utf8::encode_utf8(s@),
{
    vstd::slice::slice_to_vec(s.as_str().as_bytes())
}

/// Why an argument of a command is refused.
#[derive(Debug)]
pub enum ArgError {
    /// Not a port (a decimal number below 65536).
    InvalidPort(String),
    /// Not a dotted IPv4 address.
    InvalidIp(String),
    /// Not a socket id.
    InvalidSid(String),
    /// Not a byte count below 65536.
    InvalidCount(String),
    /// No local port, or no socket id, is free for a new connection.
    NoFreePort,
}

/// Bytes of a file sent at a time by `sf`.
pub const READ_CHUNK: usize = 1024;

/// The byte strings of `s` one after another.
pub open spec fn concat(s: Seq<Seq<u8>>) -> Seq<u8>
    decreases s.len(),
{
    if s.len() == 0 {
        Seq::empty()
    } else {
        concat(s.drop_last()) + s.last()
    }
}

/// Whether `chunks` cut `data` into pieces of `READ_CHUNK` bytes, in order,
/// the last one possibly shorter and none empty.
pub open spec fn chunked(chunks: Seq<Vec<u8>>, data: Seq<u8>) -> bool {
    &&& concat(chunks.map_values(|c: Vec<u8>| c@)) == data
    &&& forall|i: int| 0 <= i < chunks.len() ==> 0 < #[trigger] chunks[i]@.len() <= READ_CHUNK
    &&& forall|i: int| 0 <= i < chunks.len() - 1 ==> #[trigger] chunks[i]@.len() == READ_CHUNK
}

/// Cuts `data` into pieces of `READ_CHUNK` bytes (see `chunked`).
pub fn chunk_data(data: &Vec<u8>) -> (r: Vec<Vec<u8>>)
    ensures
        chunked(r@, data@),
{
    let mut r: Vec<Vec<u8>> = Vec::new();
    let mut i: usize = 0;
    proof { assert(data@.take(0) =~= Seq::<u8>::empty()); assert(r@.map_values(|c: Vec<u8>| c@) =~= Seq::<Seq<u8>>::empty()); }
    while i < data.len()
        invariant
            i <= data@.len(),
            concat(r@.map_values(|c: Vec<u8>| c@)) == data@.take(i as int),
            forall|j: int| 0 <= j < r@.len() ==> 0 < #[trigger] r@[j]@.len() <= READ_CHUNK,
            forall|j: int| 0 <= j < r@.len() ==> (#[trigger] r@[j]@.len() == READ_CHUNK || (j == r@.len() - 1 && i == data@.len())),
        decreases data@.len() - i,
    {
        let end = if data.len() - i > READ_CHUNK { i + READ_CHUNK } else { data.len() };
        let mut c: Vec<u8> = Vec::new();
        let mut k: usize = i;
        while k < end
            invariant
                i <= k <= end <= data@.len(),
                c@ == data@.subrange(i as int, k as int),
            decreases end - k,
        {
            c.push(data[k]);
            k = k + 1;
            proof { assert(c@ =~= data@.subrange(i as int, k as int)); }
        }
        let ghost before = r@;
        r.push(c);
        proof {
            let m = r@.map_values(|c: Vec<u8>| c@);
            assert(m.drop_last() =~= before.map_values(|c: Vec<u8>| c@));
            assert(data@.take(end as int) =~= data@.take(i as int) + data@.subrange(i as int, end as int));
        }
        i = end;
    }
    proof { assert(data@.take(i as int) =~= data@); }
    r
}

/// The packet that `send` asks for: a test packet (protocol 0) to the
/// address of the first argument, carrying the message (see `parse_send`);
/// `None` when the address is not an IPv4 address.
pub fn send_handler(args: &mut Vec<String>) -> (r: Option<PacketBasis>)
    requires
        old(args)@.len() >= 1,
    ensures
        final(args)@ == old(args)@.drop_first(),
        match spec_parse_addr(old(args)@[0]@) {
            None => r is None,
            Some(dst) => r matches Some(pb) && pb.dst_ip == dst && pb.prot_num == 0 && ({
                let rest = old(args)@.drop_first().map_values(|s: String| s@);
                pb.msg@ == vstd::utf8::encode_utf8(join_words(rest.take(newline_free_len(rest) as int)))
            }),
        },
{
    let parsed = parse_send(args);
    let dst_ip = match parse_addr(parsed.0.as_str()) {
        Some(a) => a,
        None => { return None; },
    };
    Some(PacketBasis { dst_ip, prot_num: 0, msg: utf8_bytes(&parsed.1) })
}

/// A host's prompt: its host and the commands it knows.
#[derive(Debug)]
pub struct HostRepl {
    pub backend: HostBackend,
    pub command_table: CommandTable,
}

/// The prompt's view of its commands after they are all added.
pub open spec fn host_table_ready(t: CommandTable) -> bool {
    t.view() == commands_map(base_commands_spec() + host_commands_spec())
}

impl HostRepl {
    /// A prompt for `backend` that knows no command yet.
    pub fn new(backend: HostBackend) -> (r: HostRepl)
        ensures
            r.backend == backend,
            r.command_table.view() == Map::<Seq<char>, CommandData>::empty(),
            r.command_table.entries@.len() == 0,
    {
        HostRepl { backend, command_table: CommandTable { entries: Vec::new() } }
    }

    /// The commands of a host's prompt (see `get_all_host_commands`).
    pub fn get_all_commands(&self) -> (v: Vec<(String, CommandData)>)
        ensures
            v@.map_values(|c: (String, CommandData)| command_entry(c)) == base_commands_spec() + host_commands_spec(),
    {
        get_all_host_commands()
    }

    /// Adds all the commands to the command table.
    pub fn init_command_table(&mut self)
        requires
            old(self).command_table.entries@.len() == 0,
        ensures
            host_table_ready(final(self).command_table),
            final(self).backend == old(self).backend,
    {
        let commands = self.get_all_commands();
        let ghost c = commands@;
        self.command_table.insert_all(commands);
        proof {
            assert(old(self).command_table.entries@.map_values(|c: (String, CommandData)| command_entry(c))
                + c.map_values(|c: (String, CommandData)| command_entry(c))
                =~= base_commands_spec() + host_commands_spec());
        }
    }

    /// `a <port>`: listens on the port and accepts connections on it; the
    /// listener's id. Refused when the argument is not a port. The socket
    /// table must have a free id.
    pub fn a_handler(&mut self, args: &Vec<String>) -> (r: Result<SocketId, ArgError>)
        requires
            old(self).backend.wf(),
            args@.len() >= 1,
            !table_full(old(self).backend.socket_manager.socket_table.view()),
        ensures
            final(self).backend.wf(),
            final(self).command_table == old(self).command_table,
            match spec_parse_u16(args@[0]@) {
                None => (r matches Err(ArgError::InvalidPort(a)) && a@ == args@[0]@) && final(self).backend == old(self).backend,
                Some(port) => r matches Ok(sid) && exists|mid: SocketManager|
                    listen_effect(old(self).backend.socket_manager, mid, port, sid)
                    && #[trigger] accept_effect(mid, final(self).backend.socket_manager, port),
            },
    {
        let port = match parse_u16(args[0].as_str()) {
            Some(p) => p,
            None => { return Err(ArgError::InvalidPort(args[0].clone())); },
        };
        let sid = self.backend.listen(port);
        let ghost mid = self.backend.socket_manager;
        self.backend.accept(port);
        proof {
            assert(accept_effect(mid, self.backend.socket_manager, port));
        }
        Ok(sid)
    }

    /// `c <addr> <port>`: opens a connection to the address and port at time
    /// `now` (see `HostBackend::connect`); the new socket's id. Refused when
    /// an argument does not parse; the error reports the argument as an
    /// address in both cases.
    pub fn c_handler(&mut self, args: &Vec<String>, now: u64, out: &mut Vec<SocketEvent>) -> (r: Result<SocketId, ArgError>)
        requires
            old(self).backend.wf(),
            args@.len() >= 2,
            exists|p: u16| p < 65535 && !(#[trigger] port_in_use(old(self).backend.socket_manager.socket_table, p)),
            !table_full(old(self).backend.socket_manager.socket_table.view()),
        ensures
            final(self).backend.wf(),
            final(self).command_table == old(self).command_table,
            spec_parse_addr(args@[0]@) is None ==> (r matches Err(ArgError::InvalidIp(a)) && a@ == args@[0]@)
                && final(self).backend == old(self).backend,
            spec_parse_addr(args@[0]@) is Some && spec_parse_u16(args@[1]@) is None
                ==> (r matches Err(ArgError::InvalidIp(a)) && a@ == args@[1]@) && final(self).backend == old(self).backend,
            match (spec_parse_addr(args@[0]@), spec_parse_u16(args@[1]@)) {
                (Some(ip), Some(port)) => {
                    let sid = first_free(old(self).backend.socket_manager.socket_table.view(),
                        old(self).backend.socket_manager.sid_assigner.next_sid, 0);
                    &&& r == Ok::<SocketId, ArgError>(sid)
                    &&& connect_effect(old(self).backend, final(self).backend, ip, port, now, old(out)@, final(out)@, sid)
                },
                _ => true,
            },
    {
        let ip = match parse_addr(args[0].as_str()) {
            Some(a) => a,
            None => { return Err(ArgError::InvalidIp(args[0].clone())); },
        };
        let port = match parse_u16(args[1].as_str()) {
            Some(p) => p,
            None => { return Err(ArgError::InvalidIp(args[1].clone())); },
        };
        Ok(self.backend.connect(ip, port, now, out))
    }

    /// `s <socket> <data>`: sends the UTF-8 bytes of the data on the socket
    /// (see `HostBackend::tcp_send`). Refused when the socket id does not
    /// parse.
    pub fn s_handler(&mut self, args: &Vec<String>) -> (r: Result<Result<Vec<u8>, SocketError>, ArgError>)
        requires
            old(self).backend.wf(),
            args@.len() >= 2,
        ensures
            final(self).backend.wf(),
            final(self).command_table == old(self).command_table,
            match spec_parse_u16(args@[0]@) {
                None => (r matches Err(ArgError::InvalidSid(a)) && a@ == args@[0]@) && final(self).backend == old(self).backend,
                Some(sid) => r matches Ok(res)
                    && send_effect(old(self).backend, final(self).backend, sid, vstd::utf8::encode_utf8(args@[1]@), res),
            },
    {
        let sid = match parse_u16(args[0].as_str()) {
            Some(p) => p,
            None => { return Err(ArgError::InvalidSid(args[0].clone())); },
        };
        let data = utf8_bytes(&args[1]);
        Ok(self.backend.tcp_send(sid, data))
    }

    /// `r <socket> <count>`: reads up to the count of bytes from the socket
    /// (see `HostBackend::tcp_recieve`). Refused when an argument does not
    /// parse.
    pub fn r_handler(&mut self, args: &Vec<String>) -> (r: Result<Result<Vec<u8>, SocketError>, ArgError>)
        requires
            old(self).backend.wf(),
            args@.len() >= 2,
        ensures
            final(self).backend.wf(),
            final(self).command_table == old(self).command_table,
            spec_parse_u16(args@[0]@) is None ==> (r matches Err(ArgError::InvalidSid(a)) && a@ == args@[0]@)
                && final(self).backend == old(self).backend,
            spec_parse_u16(args@[0]@) is Some && spec_parse_u16(args@[1]@) is None
                ==> (r matches Err(ArgError::InvalidCount(a)) && a@ == args@[1]@) && final(self).backend == old(self).backend,
            match (spec_parse_u16(args@[0]@), spec_parse_u16(args@[1]@)) {
                (Some(sid), Some(bytes)) => r matches Ok(res) && recv_effect(old(self).backend, final(self).backend, sid, bytes, res),
                _ => true,
            },
    {
        let sid = match parse_u16(args[0].as_str()) {
            Some(p) => p,
            None => { return Err(ArgError::InvalidSid(args[0].clone())); },
        };
        let bytes = match parse_u16(args[1].as_str()) {
            Some(p) => p,
            None => { return Err(ArgError::InvalidCount(args[1].clone())); },
        };
        Ok(self.backend.tcp_recieve(sid, bytes))
    }

    /// `cl <socket>`: closes the socket at time `now` (see
    /// `HostBackend::close`). Refused when the socket id does not parse.
    pub fn cl_handler(&mut self, args: &Vec<String>, now: u64, out: &mut Vec<SocketEvent>) -> (r: Result<Result<bool, SocketError>, ArgError>)
        requires
            old(self).backend.wf(),
            args@.len() >= 1,
        ensures
            final(self).backend.wf(),
            final(self).command_table == old(self).command_table,
            match spec_parse_u16(args@[0]@) {
                None => (r matches Err(ArgError::InvalidSid(a)) && a@ == args@[0]@) && final(self).backend == old(self).backend
                    && final(out)@ == old(out)@,
                Some(sid) => r matches Ok(res)
                    && close_effect(old(self).backend, final(self).backend, sid, old(out)@, final(out)@, res),
            },
    {
        let sid = match parse_u16(args[0].as_str()) {
            Some(p) => p,
            None => { return Err(ArgError::InvalidSid(args[0].clone())); },
        };
        Ok(self.backend.close(sid, now, out))
    }

    /// `sf <file> <addr> <port>`: sends the bytes `data` read from the file
    /// to the address and port: opens a connection (see
    /// `HostBackend::connect`) and returns its id with the data cut into
    /// the pieces to send one after another (see `chunked`). Refused when
    /// the address or the port does not parse, or when no local port or
    /// socket id is free.
    pub fn sf_handler(&mut self, data: Vec<u8>, args: &Vec<String>, now: u64, out: &mut Vec<SocketEvent>)
        -> (r: Result<(SocketId, Vec<Vec<u8>>), ArgError>)
        requires
            old(self).backend.wf(),
            args@.len() >= 3,
        ensures
            final(self).backend.wf(),
            final(self).command_table == old(self).command_table,
            r is Err ==> final(self).backend == old(self).backend && final(out)@ == old(out)@,
            spec_parse_addr(args@[1]@) is None ==> (r matches Err(ArgError::InvalidIp(a)) && a@ == args@[1]@),
            spec_parse_addr(args@[1]@) is Some && spec_parse_u16(args@[2]@) is None
                ==> (r matches Err(ArgError::InvalidPort(a)) && a@ == args@[2]@),
            match (spec_parse_addr(args@[1]@), spec_parse_u16(args@[2]@)) {
                (Some(ip), Some(port)) => {
                    let free = (exists|p: u16| p < 65535 && !(#[trigger] port_in_use(old(self).backend.socket_manager.socket_table, p)))
                        && !table_full(old(self).backend.socket_manager.socket_table.view());
                    if free {
                        r matches Ok((sid, chunks))
                            && connect_effect(old(self).backend, final(self).backend, ip, port, now, old(out)@, final(out)@, sid)
                            && chunked(chunks@, data@)
                    } else {
                        r matches Err(ArgError::NoFreePort)
                    }
                },
                _ => true,
            },
    {
        let ip = match parse_addr(args[1].as_str()) {
            Some(a) => a,
            None => { return Err(ArgError::InvalidIp(args[1].clone())); },
        };
        let port = match parse_u16(args[2].as_str()) {
            Some(p) => p,
            None => { return Err(ArgError::InvalidPort(args[2].clone())); },
        };
        if !self.backend.has_free_port() || !self.backend.has_free_id() {
            return Err(ArgError::NoFreePort);
        }
        let sid = self.backend.connect(ip, port, now, out);
        Ok((sid, chunk_data(&data)))
    }

    /// `rf <file> <port>`: gets ready to receive a file on the port: listens
    /// on it and accepts one connection (see `HostBackend::listen` and
    /// `HostBackend::accept1`); returns the listener's id and the
    /// connection's id when one was pending (otherwise the next one to
    /// arrive is handed over). Refused when the port does not parse, or
    /// when no socket id is free.
    pub fn rf_handler(&mut self, args: &Vec<String>) -> (r: Result<(SocketId, Option<SocketId>), ArgError>)
        requires
            old(self).backend.wf(),
            args@.len() >= 2,
        ensures
            final(self).backend.wf(),
            final(self).command_table == old(self).command_table,
            r is Err ==> final(self).backend == old(self).backend,
            spec_parse_u16(args@[1]@) is None ==> (r matches Err(ArgError::InvalidPort(a)) && a@ == args@[1]@),
            spec_parse_u16(args@[1]@) matches Some(port) ==> if table_full(old(self).backend.socket_manager.socket_table.view()) {
                r matches Err(ArgError::NoFreePort)
            } else {
                r matches Ok((lsid, c)) && exists|mid: SocketManager| listen_effect(old(self).backend.socket_manager, mid, port, lsid)
                    && #[trigger] accept1_effect(mid, final(self).backend.socket_manager, port, Some(c))
            },
    {
        let port = match parse_u16(args[1].as_str()) {
            Some(p) => p,
            None => { return Err(ArgError::InvalidPort(args[1].clone())); },
        };
        if !self.backend.has_free_id() {
            return Err(ArgError::NoFreePort);
        }
        let lsid = self.backend.listen(port);
        let ghost mid = self.backend.socket_manager;
        let c = match self.backend.accept1(port) {
            Some(c) => c,
            None => {
                assert(false);
                None
            },
        };
        proof { assert(accept1_effect(mid, self.backend.socket_manager, port, Some(c))); }
        Ok((lsid, c))
    }
}

/// A router's prompt: its router and the commands it knows.
#[derive(Debug)]
pub struct RouterRepl {
    pub backend: RouterBackend,
    pub command_table: CommandTable,
}

impl RouterRepl {
    /// A prompt for `backend` that knows no command yet.
    pub fn new(backend: RouterBackend) -> (r: RouterRepl)
        ensures
            r.backend == backend,
            r.command_table.view() == Map::<Seq<char>, CommandData>::empty(),
            r.command_table.entries@.len() == 0,
    {
        RouterRepl { backend, command_table: CommandTable { entries: Vec::new() } }
    }

    /// Adds the base commands, the only ones a router's prompt knows.
    pub fn init_command_table(&mut self)
        requires
            old(self).command_table.entries@.len() == 0,
        ensures
            final(self).command_table.view() == commands_map(base_commands_spec()),
            final(self).backend == old(self).backend,
    {
        let commands = get_base_commands();
        let ghost c = commands@;
        self.command_table.insert_all(commands);
        proof {
            assert(old(self).command_table.entries@.map_values(|c: (String, CommandData)| command_entry(c))
                + c.map_values(|c: (String, CommandData)| command_entry(c))
                =~= base_commands_spec());
        }
    }
}

} // verus!
