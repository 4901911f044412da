//! The command-line client: how a typed line becomes a command, which
//! request each command sends (inside a transaction or not), and what is
//! printed for each reply.
use vstd::prelude::*;
use crate::ping::opt_view;
use crate::text::{words, split_words, views, string_views, chars_of, string_of};

verus! {

/// `s` in upper case, as `str::to_uppercase` gives it (full Unicode case
/// mapping).
pub uninterp spec fn uppercase_of(s: Seq<char>) -> Seq<char>;

/// `str::to_uppercase`. The contract claims only that the result is a
/// function of the text alone, `uppercase_of(s)`.
#[verifier::external_body]
fn to_uppercase(s: &str) -> (r: String)
    ensures
        r@ == uppercase_of(s@),
{
    s.to_uppercase()
}

/// A command typed at the client.
#[derive(Debug, PartialEq, Eq)]
pub enum Input {
    /// `PING [payload]`.
    Ping(Option<String>),
    /// `SET key value`.
    Store(String, String),
    /// `GET key`.
    Fetch(String),
    /// `DEL key...`.
    Del(Vec<String>),
    /// `MULTI`: open a transaction.
    Multi,
    /// `EXEC`: run the open transaction.
    Exec,
    /// `WATCH key`, inside a transaction.
    Watch(String),
}

/// What a typed line comes to.
#[derive(Debug, PartialEq, Eq)]
pub enum InputOutcome {
    /// A blank line, passed over.
    Skip,
    /// A command to run.
    Command(Input),
    /// A line that is refused, with the message printed for it.
    Invalid(String),
    /// `QUIT`: the client stops reading.
    Quit,
}

/// The outcome refuses the line with `msg`.
pub open spec fn refused(o: InputOutcome, msg: Seq<char>) -> bool {
    o matches InputOutcome::Invalid(m) && m@ == msg
}

/// What the line `line` comes to, given whether a transaction is open:
/// its words, with the first one in upper case naming the command.
pub open spec fn outcome_of(o: InputOutcome, line: Seq<char>, in_tx: bool) -> bool {
    let w = words(line);
    if w.len() == 0 {
        o is Skip
    } else {
        outcome_for(o, uppercase_of(w[0]), w, in_tx)
    }
}

/// What a line of words `w` comes to when `c` is the command it names,
/// given whether a transaction is open: the number of words must fit the
/// command.
pub open spec fn outcome_for(o: InputOutcome, c: Seq<char>, w: Seq<Seq<char>>, in_tx: bool) -> bool {
    if w.len() == 0 {
        o is Skip
    } else {
        if c == "PING"@ {
            if w.len() == 1 {
                o == InputOutcome::Command(Input::Ping(None))
            } else if w.len() == 2 {
                o matches InputOutcome::Command(Input::Ping(Some(p))) && p@ == w[1]
            } else {
                refused(o, "Invalid format of PING"@)
            }
        } else if c == "SET"@ {
            if w.len() == 3 {
                o matches InputOutcome::Command(Input::Store(k, v)) && k@ == w[1] && v@ == w[2]
            } else {
                refused(o, "Invalid format of SET"@)
            }
        } else if c == "GET"@ {
            if w.len() == 2 {
                o matches InputOutcome::Command(Input::Fetch(k)) && k@ == w[1]
            } else {
                refused(o, "Invalid format of GET"@)
            }
        } else if c == "DEL"@ {
            if w.len() == 1 {
                refused(o, "Invalid format of DEL"@)
            } else {
                o matches InputOutcome::Command(Input::Del(ks)) && string_views(ks@) == w.skip(1)
            }
        } else if c == "MULTI"@ {
            if w.len() == 1 {
                if in_tx {
                    refused(o, "Already inside transaction"@)
                } else {
                    o == InputOutcome::Command(Input::Multi)
                }
            } else {
                refused(o, "Invalid format of MULTI"@)
            }
        } else if c == "EXEC"@ {
            if w.len() == 1 {
                if !in_tx {
                    refused(o, "Exec can only be used inside transaction"@)
                } else {
                    o == InputOutcome::Command(Input::Exec)
                }
            } else {
                refused(o, "Invalid format of EXEC"@)
            }
        } else if c == "WATCH"@ {
            if w.len() == 2 {
                if !in_tx {
                    refused(o, "Watch can only be used inside transaction"@)
                } else {
                    o matches InputOutcome::Command(Input::Watch(k)) && k@ == w[1]
                }
            } else {
                refused(o, "Invalid format of WATCH"@)
            }
        } else if c == "QUIT"@ {
            o is Quit
        } else {
            refused(o, "Invalid input"@)
        }
    }
}

/// A request that the client sends to the proxy.
#[derive(Debug, PartialEq, Eq)]
pub enum ClientRequest {
    Ping { payload: Option<String> },
    Store { key: String, value: String },
    StoreInTx { key: String, value: String, id: i64 },
    Fetch { key: String },
    FetchInTx { key: String, id: i64 },
    Del { keys: Vec<String> },
    Multi { key: String, id: i64 },
    Exec { key: String, id: i64 },
    Watch { key: String, id: i64 },
}

/// A reply from the proxy, for the command that was sent.
#[derive(Debug, PartialEq, Eq)]
pub enum ClientReply {
    /// The answer to a ping.
    Ping(String),
    /// The status of a write (or of a queued write).
    Store(String),
    /// The value read, if any.
    Fetch(Option<String>),
    /// How many keys were removed.
    Del(i64),
    /// The identifier of the opened transaction.
    Multi(i64),
    /// The values of the transaction's reads, or its refusal.
    Exec(Result<Vec<String>, ()>),
    /// The watch was taken.
    Watch,
}

/// The decimal digit `d`.
pub open spec fn digit_char(d: nat) -> char {
    if d == 0 {
        '0'
    } else if d == 1 {
        '1'
    } else if d == 2 {
        '2'
    } else if d == 3 {
        '3'
    } else if d == 4 {
        '4'
    } else if d == 5 {
        '5'
    } else if d == 6 {
        '6'
    } else if d == 7 {
        '7'
    } else if d == 8 {
        '8'
    } else {
        '9'
    }
}

/// The decimal digits of `n`, most significant first.
pub open spec fn decimal(n: nat) -> Seq<char>
    decreases n,
{
    if n < 10 {
        seq![digit_char(n)]
    } else {
        decimal(n / 10).push(digit_char(n % 10))
    }
}

/// The decimal text of `n`, with a minus sign when it is negative.
pub open spec fn i64_text(n: i64) -> Seq<char> {
    if n < 0 {
        seq!['-'] + decimal((-(n as int)) as nat)
    } else {
        decimal(n as nat)
    }
}

fn digit(d: u64) -> (c: char)
    requires
        d < 10,
    ensures
        c == digit_char(d as nat),
{
    if d == 0 {
        '0'
    } else if d == 1 {
        '1'
    } else if d == 2 {
        '2'
    } else if d == 3 {
        '3'
    } else if d == 4 {
        '4'
    } else if d == 5 {
        '5'
    } else if d == 6 {
        '6'
    } else if d == 7 {
        '7'
    } else if d == 8 {
        '8'
    } else {
        '9'
    }
}

fn push_decimal(v: &mut Vec<char>, n: u64)
    ensures
        final(v)@ == old(v)@ + decimal(n as nat),
    decreases n,
{
    if n >= 10 {
        push_decimal(v, n / 10);
    }
    v.push(digit(n % 10));
    assert(final(v)@ =~= old(v)@ + decimal(n as nat)) by {
        if n >= 10 {
            assert(old(v)@ + decimal(n as nat) =~= old(v)@ + decimal((n / 10) as nat) + seq![
                digit_char((n % 10) as nat),
            ]);
        }
    }
}

/// The decimal text of `n` (`i64::to_string`).
pub fn i64_to_text(n: i64) -> (r: String)
    ensures
        r@ == i64_text(n),
{
    let mut v: Vec<char> = Vec::new();
    if n < 0 {
        v.push('-');
        let m: u64 = if n == i64::MIN {
            9223372036854775808u64
        } else {
            (-n) as u64
        };
        push_decimal(&mut v, m);
    } else {
        push_decimal(&mut v, n as u64);
    }
    assert(v@ =~= i64_text(n));
    string_of(v.as_slice())
}

/// The client's transaction state: whether a transaction is open, and
/// its identifier (`-1` when none is).
pub struct ClientState {
    pub in_tx: bool,
    pub tx_id: i64,
}

/// The request for `input` is defined: `MULTI` outside a transaction,
/// `EXEC` and `WATCH` inside one.
pub open spec fn request_allowed(s: ClientState, input: Input) -> bool {
    match input {
        Input::Multi => !s.in_tx,
        Input::Exec => s.in_tx,
        Input::Watch(_) => s.in_tx,
        _ => true,
    }
}

/// The request sent for `input` in state `s`: writes and reads inside a
/// transaction are queued in it; `MULTI` and `EXEC` carry the keys
/// `Start tx` and `End tx`.
pub open spec fn request_of(req: ClientRequest, s: ClientState, input: Input) -> bool {
    match input {
        Input::Ping(p) => req matches ClientRequest::Ping { payload } && opt_view(payload)
            == opt_view(p),
        Input::Store(k, v) => if s.in_tx {
            req matches ClientRequest::StoreInTx { key, value, id } && key@ == k@ && value@ == v@
                && id == s.tx_id
        } else {
            req matches ClientRequest::Store { key, value } && key@ == k@ && value@ == v@
        },
        Input::Fetch(k) => if s.in_tx {
            req matches ClientRequest::FetchInTx { key, id } && key@ == k@ && id == s.tx_id
        } else {
            req matches ClientRequest::Fetch { key } && key@ == k@
        },
        Input::Del(ks) => req matches ClientRequest::Del { keys } && string_views(keys@)
            == string_views(ks@),
        Input::Multi => req matches ClientRequest::Multi { key, id } && key@ == "Start tx"@ && id
            == -1,
        Input::Exec => req matches ClientRequest::Exec { key, id } && key@ == "End tx"@ && id
            == s.tx_id,
        Input::Watch(k) => req matches ClientRequest::Watch { key, id } && key@ == k@ && id
            == s.tx_id,
    }
}

/// The state after `reply`: a transaction is open once `MULTI` answers
/// with its identifier, and closed once `EXEC` answers, whatever it
/// answers.
pub open spec fn state_after(s: ClientState, reply: ClientReply) -> ClientState {
    match reply {
        ClientReply::Multi(id) => ClientState { in_tx: true, tx_id: id },
        ClientReply::Exec(_) => ClientState { in_tx: false, tx_id: -1i64 },
        _ => s,
    }
}

/// The lines printed for `reply` in state `s`.
pub open spec fn printed_for(s: ClientState, reply: ClientReply) -> Seq<Seq<char>> {
    match reply {
        ClientReply::Ping(p) => seq![p@],
        ClientReply::Store(status) => if s.in_tx {
            Seq::<Seq<char>>::empty()
        } else {
            seq![status@]
        },
        ClientReply::Fetch(v) => if s.in_tx {
            Seq::<Seq<char>>::empty()
        } else {
            match v {
                Some(x) => seq![x@],
                None => seq!["{nil}"@],
            }
        },
        ClientReply::Del(n) => seq![i64_text(n)],
        ClientReply::Multi(_) => seq!["Transaction start"@],
        ClientReply::Exec(res) => match res {
            Ok(vals) => seq!["Transaction end"@] + string_views(vals@),
            Err(_) => seq!["Watch violated"@, "Transaction interrupted"@],
        },
        ClientReply::Watch => Seq::<Seq<char>>::empty(),
    }
}

impl ClientState {
    /// No transaction open.
    pub fn new() -> (r: ClientState)
        ensures
            !r.in_tx,
            r.tx_id == -1,
    {
        ClientState { in_tx: false, tx_id: -1 }
    }

    /// What a typed line comes to.
    pub fn parse_input(&self, line: &str) -> (r: InputOutcome)
        ensures
            outcome_of(r, line@, self.in_tx),
    {
        let lc = chars_of(line);
        let w = split_words(&lc);
        if w.len() == 0 {
            return InputOutcome::Skip;
        }
        let n = w.len();
        let mut ws: Vec<String> = Vec::new();
        for i in 0..n
            invariant
                n == w@.len(),
                string_views(ws@) == views(w@).take(i as int),
        {
            let ghost before = ws@;
            ws.push(string_of(w[i].as_slice()));
            assert(string_views(ws@) =~= string_views(before).push(w@[i as int]@));
            assert(views(w@).take(i + 1) =~= views(w@).take(i as int).push(w@[i as int]@));
        }
        assert(views(w@).take(n as int) =~= views(w@));
        let first = string_of(w[0].as_slice());
        let c = to_uppercase(first.as_str());
        self.classify(c.as_str(), &ws)
    }

    /// What a line of words comes to when `command` is the command its
    /// first word names (that word in upper case).
    pub fn classify(&self, command: &str, words: &Vec<String>) -> (r: InputOutcome)
        ensures
            outcome_for(r, command@, string_views(words@), self.in_tx),
    {
        let ghost ws = string_views(words@);
        let n = words.len();
        if n == 0 {
            return InputOutcome::Skip;
        }
        let c = command.to_owned();
        if c == "PING".to_owned() {
            if n == 1 {
                InputOutcome::Command(Input::Ping(None))
            } else if n == 2 {
                InputOutcome::Command(Input::Ping(Some(words[1].clone())))
            } else {
                InputOutcome::Invalid("Invalid format of PING".to_owned())
            }
        } else if c == "SET".to_owned() {
            if n == 3 {
                InputOutcome::Command(
                    Input::Store(words[1].clone(), words[2].clone()),
                )
            } else {
                InputOutcome::Invalid("Invalid format of SET".to_owned())
            }
        } else if c == "GET".to_owned() {
            if n == 2 {
                InputOutcome::Command(Input::Fetch(words[1].clone()))
            } else {
                InputOutcome::Invalid("Invalid format of GET".to_owned())
            }
        } else if c == "DEL".to_owned() {
            if n == 1 {
                InputOutcome::Invalid("Invalid format of DEL".to_owned())
            } else {
                let mut keys: Vec<String> = Vec::new();
                for i in 1..n
                    invariant
                        n == words@.len(),
                        ws == string_views(words@),
                        string_views(keys@) == ws.subrange(1, i as int),
                {
                    let ghost before = keys@;
                    keys.push(words[i].clone());
                    assert(string_views(keys@) =~= string_views(before).push(words@[i as int]@));
                    assert(ws.subrange(1, i + 1) =~= ws.subrange(1, i as int).push(ws[i as int]));
                }
                assert(ws.subrange(1, n as int) =~= ws.skip(1));
                InputOutcome::Command(Input::Del(keys))
            }
        } else if c == "MULTI".to_owned() {
            if n == 1 {
                if self.in_tx {
                    InputOutcome::Invalid("Already inside transaction".to_owned())
                } else {
                    InputOutcome::Command(Input::Multi)
                }
            } else {
                InputOutcome::Invalid("Invalid format of MULTI".to_owned())
            }
        } else if c == "EXEC".to_owned() {
            if n == 1 {
                if !self.in_tx {
                    InputOutcome::Invalid("Exec can only be used inside transaction".to_owned())
                } else {
                    InputOutcome::Command(Input::Exec)
                }
            } else {
                InputOutcome::Invalid("Invalid format of EXEC".to_owned())
            }
        } else if c == "WATCH".to_owned() {
            if n == 2 {
                if !self.in_tx {
                    InputOutcome::Invalid("Watch can only be used inside transaction".to_owned())
                } else {
                    InputOutcome::Command(Input::Watch(words[1].clone()))
                }
            } else {
                InputOutcome::Invalid("Invalid format of WATCH".to_owned())
            }
        } else if c == "QUIT".to_owned() {
            InputOutcome::Quit
        } else {
            InputOutcome::Invalid("Invalid input".to_owned())
        }
    }

    /// Whether the request for `input` is defined in this state.
    pub fn can_request(&self, input: &Input) -> (r: bool)
        ensures
            r == request_allowed(*self, *input),
    {
        match input {
            Input::Multi => !self.in_tx,
            Input::Exec => self.in_tx,
            Input::Watch(_) => self.in_tx,
            _ => true,
        }
    }

    /// The request to send for `input`.
    pub fn request(&self, input: Input) -> (r: ClientRequest)
        requires
            request_allowed(*self, input),
        ensures
            request_of(r, *self, input),
    {
        match input {
            Input::Ping(p) => ClientRequest::Ping { payload: p },
            Input::Store(k, v) => if self.in_tx {
                ClientRequest::StoreInTx { key: k, value: v, id: self.tx_id }
            } else {
                ClientRequest::Store { key: k, value: v }
            },
            Input::Fetch(k) => if self.in_tx {
                ClientRequest::FetchInTx { key: k, id: self.tx_id }
            } else {
                ClientRequest::Fetch { key: k }
            },
            Input::Del(ks) => ClientRequest::Del { keys: ks },
            Input::Multi => ClientRequest::Multi { key: "Start tx".to_owned(), id: -1 },
            Input::Exec => ClientRequest::Exec { key: "End tx".to_owned(), id: self.tx_id },
            Input::Watch(k) => ClientRequest::Watch { key: k, id: self.tx_id },
        }
    }

    /// Takes in a reply: updates the transaction state and gives the
    /// lines to print.
    pub fn on_reply(&mut self, reply: ClientReply) -> (r: Vec<String>)
        ensures
            *final(self) == state_after(*old(self), reply),
            string_views(r@) == printed_for(*old(self), reply),
    {
        let mut out: Vec<String> = Vec::new();
        let ghost s0 = *self;
        match reply {
            ClientReply::Ping(p) => {
                out.push(p);
                assert(string_views(out@) =~= printed_for(s0, reply));
            },
            ClientReply::Store(status) => {
                if !self.in_tx {
                    out.push(status);
                }
                assert(string_views(out@) =~= printed_for(s0, reply));
            },
            ClientReply::Fetch(v) => {
                if !self.in_tx {
                    match v {
                        Some(x) => out.push(x),
                        None => out.push("{nil}".to_owned()),
                    }
                }
                assert(string_views(out@) =~= printed_for(s0, reply));
            },
            ClientReply::Del(n) => {
                out.push(i64_to_text(n));
                assert(string_views(out@) =~= printed_for(s0, reply));
            },
            ClientReply::Multi(id) => {
                self.in_tx = true;
                self.tx_id = id;
                out.push("Transaction start".to_owned());
                assert(string_views(out@) =~= printed_for(s0, reply));
            },
            ClientReply::Exec(res) => {
                self.in_tx = false;
                self.tx_id = -1;
                match res {
                    Ok(vals) => {
                        out.push("Transaction end".to_owned());
                        let n = vals.len();
                        for i in 0..n
                            invariant
                                n == vals@.len(),
                                string_views(out@) == seq!["Transaction end"@] + string_views(
                                    vals@,
                                ).take(i as int),
                        {
                            let ghost before = out@;
                            out.push(vals[i].clone());
                            assert(string_views(out@) =~= string_views(before).push(vals@[i as int]@));
                            assert(string_views(vals@).take(i + 1) =~= string_views(vals@).take(
                                i as int,
                            ).push(vals@[i as int]@));
                        }
                        assert(string_views(vals@).take(n as int) =~= string_views(vals@));
                    },
                    Err(_) => {
                        out.push("Watch violated".to_owned());
                        out.push("Transaction interrupted".to_owned());
                        assert(string_views(out@) =~= printed_for(s0, reply));
                    },
                }
            },
            ClientReply::Watch => {
                assert(string_views(out@) =~= printed_for(s0, reply));
            },
        }
        out
    }
}

} // verus!

verus! {

/// The client's flag says whether it holds a transaction identifier.
pub open spec fn tx_flag_consistent(s: ClientState) -> bool {
    s.in_tx == (s.tx_id != -1)
}

/// The state after the replies, in order.
pub open spec fn state_after_all(s: ClientState, replies: Seq<ClientReply>) -> ClientState
    decreases replies.len(),
{
    if replies.len() == 0 {
        s
    } else {
        state_after_all(state_after(s, replies[0]), replies.drop_first())
    }
}

/// A `DEL` request carries every typed key, in the order typed, and no
/// other.
pub proof fn lemma_del_request_keys(req: ClientRequest, s: ClientState, ks: Vec<String>)
    requires
        request_of(req, s, Input::Del(ks)),
    ensures
        req matches ClientRequest::Del { keys } && keys@.len() == ks@.len() && forall|i: int|
            0 <= i < ks@.len() ==> (#[trigger] keys@[i])@ == ks@[i]@,
{
    if let ClientRequest::Del { keys } = req {
        assert(string_views(keys@).len() == keys@.len());
        assert(string_views(ks@).len() == ks@.len());
        assert forall|i: int| 0 <= i < ks@.len() implies (#[trigger] keys@[i])@ == ks@[i]@ by {
            assert(string_views(keys@)[i] == keys@[i]@);
            assert(string_views(ks@)[i] == ks@[i]@);
        }
    }
}

/// A `PING` request carries the typed payload: none when none was typed,
/// and the typed text when one was.
pub proof fn lemma_ping_request_payload(req: ClientRequest, s: ClientState, p: Option<String>)
    requires
        request_of(req, s, Input::Ping(p)),
    ensures
        req matches ClientRequest::Ping { payload } && (payload is Some <==> p is Some) && (
        p matches Some(x) ==> payload->Some_0@ == x@),
{
}

/// Only the answers to `MULTI` and `EXEC` change the client's transaction
/// state: `MULTI` opens the transaction it names, `EXEC` closes it, and
/// any other reply leaves the state as it was.
pub proof fn lemma_only_multi_exec_change_state(s: ClientState, reply: ClientReply)
    ensures
        reply matches ClientReply::Multi(id) ==> state_after(s, reply).in_tx && state_after(
            s,
            reply,
        ).tx_id == id,
        reply is Exec ==> !state_after(s, reply).in_tx && state_after(s, reply).tx_id == -1,
        !(reply is Multi) && !(reply is Exec) ==> state_after(s, reply) == s,
{
}

/// The client is inside a transaction exactly when it holds an
/// identifier: this holds from the start and after any replies, as long
/// as the proxy answers `MULTI` with identifiers that are not negative.
pub proof fn lemma_tx_flag_kept(s: ClientState, replies: Seq<ClientReply>)
    requires
        tx_flag_consistent(s),
        forall|i: int|
            0 <= i < replies.len() ==> (#[trigger] replies[i] matches ClientReply::Multi(id) ==> id
                >= 0),
    ensures
        tx_flag_consistent(state_after_all(s, replies)),
    decreases replies.len(),
{
    if replies.len() > 0 {
        let s1 = state_after(s, replies[0]);
        assert(replies[0] matches ClientReply::Multi(id) ==> id >= 0);
        assert(tx_flag_consistent(s1));
        let rest = replies.drop_first();
        assert forall|i: int| 0 <= i < rest.len() implies (#[trigger] rest[i] matches ClientReply::Multi(
            id,
        ) ==> id >= 0) by {
            assert(rest[i] == replies[i + 1]);
        }
        lemma_tx_flag_kept(s1, rest);
    }
}

} // verus!
