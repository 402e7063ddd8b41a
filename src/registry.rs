//! The I/O thread's bookkeeping of connections: which tokens are logging
//! in (and from which address), which are in Play (and when they last
//! answered a keep-alive), and which token comes next. Tokens are handed out
//! in increasing order and never reused; a token is in at most one table.
use vstd::prelude::*;
use crate::framing::frame_bytes;
use crate::packet::Packet;
use crate::wire::varint_bytes;

verus! {

/// Identifies one connection for the I/O thread and across the channels.
#[derive(Debug, Clone, Copy, PartialEq, Eq, Structural, Hash)]
pub struct Token(pub usize);

/// The token of the listening socket; connections get tokens above it.
pub const SERVER_TOKEN_ID: usize = 0;

/// Why the I/O thread dropped a player on its own.
#[derive(Debug, Clone, Copy, PartialEq, Eq, Structural)]
pub enum DisconnectReason {
    Timeout,
    IOError,
}

/// Messages from the I/O thread to the simulation thread.
#[derive(Debug)]
pub enum GameProtocol {
    Login { token: Token, nickname: String, uuid: [u8; 16] },
    ForcedDisconnect { token: Token, reason: DisconnectReason },
    Packet { token: Token, packet: Packet },
}

/// Messages from the simulation thread to the I/O thread.
#[derive(Debug)]
pub enum NetProtocol {
    SendPacket { token: Token, packet: Packet },
    SendRawData { token: Token, data: Vec<u8> },
    Unregister { token: Token },
}

#[derive(Debug, Clone, Copy, PartialEq, Eq, Structural)]
pub struct LoginEntry {
    pub token: Token,
    /// The peer's address as 128 bits (IPv4 addresses in mapped form).
    pub ip: u128,
}

#[derive(Debug, Clone, Copy, PartialEq, Eq, Structural)]
pub struct PlayEntry {
    pub token: Token,
    /// Milliseconds on the I/O thread's clock.
    pub last_keep_alive: u64,
}

pub struct Registry {
    pub login: Vec<LoginEntry>,
    pub play: Vec<PlayEntry>,
    pub next_token: usize,
}

pub open spec fn login_tokens(s: Seq<LoginEntry>) -> Seq<Token> {
    s.map_values(|e: LoginEntry| e.token)
}

pub open spec fn play_tokens(s: Seq<PlayEntry>) -> Seq<Token> {
    s.map_values(|e: PlayEntry| e.token)
}

pub open spec fn distinct(s: Seq<Token>) -> bool {
    forall|i: int, j: int| 0 <= i < s.len() && 0 <= j < s.len() && i != j ==> s[i] != s[j]
}

/// Whether a Play connection has been silent for `timeout` or more.
pub open spec fn stale(e: PlayEntry, now: u64, timeout: u64) -> bool {
    now >= e.last_keep_alive && now - e.last_keep_alive >= timeout
}

/// The entries that stay after an eviction, in order.
pub open spec fn kept(s: Seq<PlayEntry>, now: u64, timeout: u64) -> Seq<PlayEntry>
    decreases s.len(),
{
    if s.len() == 0 {
        Seq::empty()
    } else if stale(s.last(), now, timeout) {
        kept(s.drop_last(), now, timeout)
    } else {
        kept(s.drop_last(), now, timeout).push(s.last())
    }
}

/// The tokens of the evicted entries, in order.
pub open spec fn stale_tokens(s: Seq<PlayEntry>, now: u64, timeout: u64) -> Seq<Token>
    decreases s.len(),
{
    if s.len() == 0 {
        Seq::empty()
    } else if stale(s.last(), now, timeout) {
        stale_tokens(s.drop_last(), now, timeout).push(s.last().token)
    } else {
        stale_tokens(s.drop_last(), now, timeout)
    }
}

impl Registry {
    /// Tokens unique within and across the tables, all handed out already,
    /// none of them the listener's.
    pub open spec fn wf(&self) -> bool {
        &&& distinct(login_tokens(self.login@))
        &&& distinct(play_tokens(self.play@))
        &&& forall|i: int, j: int|
            0 <= i < self.login@.len() && 0 <= j < self.play@.len() ==> (#[trigger] self.login@[i]).token
                != (#[trigger] self.play@[j]).token
        &&& forall|i: int|
            0 <= i < self.login@.len() ==> SERVER_TOKEN_ID < (#[trigger] self.login@[i]).token.0
                < self.next_token
        &&& forall|i: int|
            0 <= i < self.play@.len() ==> SERVER_TOKEN_ID < (#[trigger] self.play@[i]).token.0
                < self.next_token
        &&& self.next_token > SERVER_TOKEN_ID
    }

    pub open spec fn has_login_ip(&self, ip: u128) -> bool {
        exists|i: int| 0 <= i < self.login@.len() && self.login@[i].ip == ip
    }

    pub fn new() -> (r: Registry)
        ensures
            r.wf(),
            r.login@.len() == 0,
            r.play@.len() == 0,
            r.next_token == SERVER_TOKEN_ID + 1,
    {
        Registry { login: Vec::new(), play: Vec::new(), next_token: SERVER_TOKEN_ID + 1 }
    }

    /// Whether a connection from `ip` is logging in now.
    pub fn logging_in(&self, ip: u128) -> (r: bool)
        ensures
            r == self.has_login_ip(ip),
    {
        let mut i: usize = 0;
        while i < self.login.len()
            invariant
                i <= self.login@.len(),
                forall|j: int| 0 <= j < i ==> self.login@[j].ip != ip,
            decreases self.login@.len() - i,
        {
            if self.login[i].ip == ip {
                return true;
            }
            i = i + 1;
        }
        false
    }

    /// Admits a new connection from `ip` into the login table; refuses it,
    /// before any token is handed out, while another connection from the
    /// same address is logging in.
    pub fn accept(&mut self, ip: u128) -> (r: Option<Token>)
        requires
            old(self).wf(),
            old(self).next_token < usize::MAX,
        ensures
            final(self).wf(),
            old(self).has_login_ip(ip) ==> r is None && final(self).login@ == old(self).login@
                && final(self).play@ == old(self).play@ && final(self).next_token == old(
                self).next_token,
            !old(self).has_login_ip(ip) ==> r == Some(Token(old(self).next_token)) && final(
                self).login@ == old(self).login@.push(
                LoginEntry { token: Token(old(self).next_token), ip },
            ) && final(self).play@ == old(self).play@ && final(self).next_token == old(
                self).next_token + 1,
    {
        if self.logging_in(ip) {
            return None;
        }
        let token = Token(self.next_token);
        self.login.push(LoginEntry { token, ip });
        self.next_token = self.next_token + 1;
        assert(login_tokens(self.login@) =~= login_tokens(old(self).login@).push(token));
        Some(token)
    }

    fn find_login(&self, token: Token) -> (r: Option<usize>)
        ensures
            r matches Some(i) ==> i < self.login@.len() && self.login@[i as int].token == token,
            r is None ==> forall|i: int| 0 <= i < self.login@.len() ==> self.login@[i].token != token,
    {
        let mut i: usize = 0;
        while i < self.login.len()
            invariant
                i <= self.login@.len(),
                forall|j: int| 0 <= j < i ==> self.login@[j].token != token,
            decreases self.login@.len() - i,
        {
            if self.login[i].token == token {
                return Some(i);
            }
            i = i + 1;
        }
        None
    }

    fn find_play(&self, token: Token) -> (r: Option<usize>)
        ensures
            r matches Some(i) ==> i < self.play@.len() && self.play@[i as int].token == token,
            r is None ==> forall|i: int| 0 <= i < self.play@.len() ==> self.play@[i].token != token,
    {
        let mut i: usize = 0;
        while i < self.play.len()
            invariant
                i <= self.play@.len(),
                forall|j: int| 0 <= j < i ==> self.play@[j].token != token,
            decreases self.play@.len() - i,
        {
            if self.play[i].token == token {
                return Some(i);
            }
            i = i + 1;
        }
        None
    }

    /// Drops a connection from the login table; whether it was there.
    pub fn remove_login(&mut self, token: Token) -> (r: bool)
        requires
            old(self).wf(),
        ensures
            final(self).wf(),
            r == exists|i: int| 0 <= i < old(self).login@.len() && old(self).login@[i].token == token,
            forall|i: int| 0 <= i < final(self).login@.len() ==> final(self).login@[i].token != token,
            forall|e: LoginEntry| e.token != token ==> (old(self).login@.contains(e) <==> final(
                self).login@.contains(e)),
            !r ==> final(self).login@ == old(self).login@,
            final(self).play@ == old(self).play@,
            final(self).next_token == old(self).next_token,
    {
        match self.find_login(token) {
            Some(i) => {
                let ghost before = self.login@;
                self.login.remove(i);
                proof {
                    assert forall|a: int, b: int|
                        0 <= a < self.login@.len() && 0 <= b < self.login@.len() && a != b implies
                        self.login@[a].token != self.login@[b].token by {
                        let a0 = if a < i { a } else { a + 1 };
                        let b0 = if b < i { b } else { b + 1 };
                        assert(login_tokens(before)[a0] != login_tokens(before)[b0]);
                    }
                    assert forall|k: int| 0 <= k < self.login@.len() implies self.login@[k].token
                        != token by {
                        let k0 = if k < i { k } else { k + 1 };
                        assert(login_tokens(before)[k0] != login_tokens(before)[i as int]);
                    }
                    assert forall|e: LoginEntry| e.token != token implies (before.contains(e)
                        <==> self.login@.contains(e)) by {
                        if before.contains(e) {
                            let k = choose|k: int| 0 <= k < before.len() && before[k] == e;
                            assert(k != i);
                            let k1 = if k < i { k } else { k - 1 };
                            assert(self.login@[k1] == e);
                        }
                        if self.login@.contains(e) {
                            let k = choose|k: int| 0 <= k < self.login@.len() && self.login@[k] == e;
                            let k0 = if k < i { k } else { k + 1 };
                            assert(before[k0] == e);
                        }
                    }
                }
                true
            },
            None => false,
        }
    }

    /// Moves a connection from the login table to the Play table, with its
    /// keep-alive clock started at `now`; whether it was logging in.
    pub fn promote(&mut self, token: Token, now: u64) -> (r: bool)
        requires
            old(self).wf(),
        ensures
            final(self).wf(),
            r == exists|i: int| 0 <= i < old(self).login@.len() && old(self).login@[i].token == token,
            r ==> final(self).play@ == old(self).play@.push(
                PlayEntry { token, last_keep_alive: now },
            ),
            !r ==> final(self).play@ == old(self).play@ && final(self).login@ == old(self).login@,
            forall|i: int| 0 <= i < final(self).login@.len() ==> final(self).login@[i].token != token,
            final(self).next_token == old(self).next_token,
    {
        let ghost old_login = self.login@;
        if !self.remove_login(token) {
            return false;
        }
        proof {
            let i = choose|i: int| 0 <= i < old_login.len() && old_login[i].token == token;
            assert forall|j: int| 0 <= j < self.play@.len() implies self.play@[j].token != token by {
                assert(old_login[i].token != self.play@[j].token);
            }
            assert(0 < token.0 < self.next_token) by {
                assert(old_login[i].token == token);
            }
            assert forall|k: int| 0 <= k < self.login@.len() implies SERVER_TOKEN_ID
                < (#[trigger] self.login@[k]).token.0 < self.next_token by {
                assert(self.login@.contains(self.login@[k]));
                assert(old_login.contains(self.login@[k]));
            }
        }
        self.play.push(PlayEntry { token, last_keep_alive: now });
        proof {
            assert(play_tokens(self.play@) =~= play_tokens(old(self).play@).push(token));
            assert forall|a: int, b: int|
                0 <= a < self.login@.len() && 0 <= b < self.play@.len() implies self.login@[a].token
                != self.play@[b].token by {
                assert(self.login@.contains(self.login@[a]));
                assert(old_login.contains(self.login@[a]));
                let a0 = choose|k: int| 0 <= k < old_login.len() && old_login[k] == self.login@[a];
                if b < self.play@.len() - 1 {
                    assert(old_login[a0].token != old(self).play@[b].token);
                }
            }
        }
        true
    }

    /// Drops a connection from the Play table; whether it was there.
    pub fn remove_play(&mut self, token: Token) -> (r: bool)
        requires
            old(self).wf(),
        ensures
            final(self).wf(),
            r == exists|i: int| 0 <= i < old(self).play@.len() && old(self).play@[i].token == token,
            forall|i: int| 0 <= i < final(self).play@.len() ==> final(self).play@[i].token != token,
            final(self).login@ == old(self).login@,
            final(self).next_token == old(self).next_token,
    {
        match self.find_play(token) {
            Some(i) => {
                let ghost before = self.play@;
                self.play.remove(i);
                proof {
                    assert forall|a: int, b: int|
                        0 <= a < self.play@.len() && 0 <= b < self.play@.len() && a != b implies
                        self.play@[a].token != self.play@[b].token by {
                        let a0 = if a < i { a } else { a + 1 };
                        let b0 = if b < i { b } else { b + 1 };
                        assert(play_tokens(before)[a0] != play_tokens(before)[b0]);
                    }
                    assert forall|k: int| 0 <= k < self.play@.len() implies self.play@[k].token
                        != token by {
                        let k0 = if k < i { k } else { k + 1 };
                        assert(play_tokens(before)[k0] != play_tokens(before)[i as int]);
                    }
                    assert forall|a: int, b: int|
                        0 <= a < self.login@.len() && 0 <= b < self.play@.len() implies self.login@[a].token
                        != self.play@[b].token by {
                        let b0 = if b < i { b } else { b + 1 };
                        assert(self.play@[b] == before[b0]);
                    }
                    assert forall|b: int| 0 <= b < self.play@.len() implies SERVER_TOKEN_ID
                        < (#[trigger] self.play@[b]).token.0 < self.next_token by {
                        let b0 = if b < i { b } else { b + 1 };
                        assert(self.play@[b] == before[b0]);
                    }
                }
                true
            },
            None => false,
        }
    }

    /// Records a keep-alive answer from a Play connection at `now`; whether
    /// the token is in Play.
    pub fn touch(&mut self, token: Token, now: u64) -> (r: bool)
        requires
            old(self).wf(),
        ensures
            final(self).wf(),
            final(self).login@ == old(self).login@,
            final(self).next_token == old(self).next_token,
            final(self).play@.len() == old(self).play@.len(),
            forall|i: int|
                0 <= i < old(self).play@.len() ==> final(self).play@[i] == if old(
                    self,
                ).play@[i].token == token {
                    PlayEntry { token, last_keep_alive: now }
                } else {
                    old(self).play@[i]
                },
            r == exists|i: int| 0 <= i < old(self).play@.len() && old(self).play@[i].token == token,
    {
        match self.find_play(token) {
            Some(i) => {
                let ghost before = self.play@;
                self.play.set(i, PlayEntry { token, last_keep_alive: now });
                proof {
                    assert(play_tokens(self.play@) =~= play_tokens(before));
                    assert forall|k: int| 0 <= k < before.len() && k != i implies before[k].token
                        != token by {
                        assert(play_tokens(before)[k] != play_tokens(before)[i as int]);
                    }
                }
                true
            },
            None => false,
        }
    }

    /// Removes every Play connection silent for `timeout` or more at `now`,
    /// keeping the others in order, and returns the removed tokens in order.
    pub fn evict_stale(&mut self, now: u64, timeout: u64) -> (r: Vec<Token>)
        requires
            old(self).wf(),
        ensures
            final(self).wf(),
            final(self).play@ == kept(old(self).play@, now, timeout),
            r@ == stale_tokens(old(self).play@, now, timeout),
            final(self).login@ == old(self).login@,
            final(self).next_token == old(self).next_token,
    {
        let ghost s = self.play@;
        let mut keep: Vec<PlayEntry> = Vec::new();
        let mut gone: Vec<Token> = Vec::new();
        let mut i: usize = 0;
        assert(s.take(0) =~= Seq::<PlayEntry>::empty());
        while i < self.play.len()
            invariant
                self.play@ == s,
                i <= s.len(),
                keep@ == kept(s.take(i as int), now, timeout),
                gone@ == stale_tokens(s.take(i as int), now, timeout),
            decreases s.len() - i,
        {
            let e = self.play[i];
            assert(s.take(i + 1).drop_last() =~= s.take(i as int));
            if now >= e.last_keep_alive && now - e.last_keep_alive >= timeout {
                gone.push(e.token);
            } else {
                keep.push(e);
            }
            i = i + 1;
        }
        assert(s.take(i as int) =~= s);
        proof {
            lemma_kept_subset(s, now, timeout);
        }
        self.play = keep;
        proof {
            let k = self.play@;
            assert forall|a: int, b: int| 0 <= a < k.len() && 0 <= b < k.len() && a != b implies
                k[a].token != k[b].token by {
                lemma_kept_distinct(s, now, timeout);
                assert(play_tokens(k)[a] != play_tokens(k)[b]);
            }
            assert forall|a: int, b: int|
                0 <= a < self.login@.len() && 0 <= b < k.len() implies self.login@[a].token
                != k[b].token by {
                let j = choose|j: int| 0 <= j < s.len() && s[j] == k[b];
                assert(self.login@[a].token != s[j].token);
            }
            assert forall|b: int| 0 <= b < k.len() implies SERVER_TOKEN_ID < (#[trigger] k[b]).token.0
                < self.next_token by {
                let j = choose|j: int| 0 <= j < s.len() && s[j] == k[b];
            }
        }
        gone
    }
}

/// Every entry kept was in the table.
proof fn lemma_kept_subset(s: Seq<PlayEntry>, now: u64, timeout: u64)
    ensures
        forall|b: int|
            0 <= b < kept(s, now, timeout).len() ==> exists|j: int|
                0 <= j < s.len() && s[j] == #[trigger] kept(s, now, timeout)[b],
    decreases s.len(),
{
    if s.len() > 0 {
        let init = s.drop_last();
        lemma_kept_subset(init, now, timeout);
        let k = kept(s, now, timeout);
        assert forall|b: int| 0 <= b < k.len() implies exists|j: int|
            0 <= j < s.len() && s[j] == #[trigger] k[b] by {
            if b < kept(init, now, timeout).len() {
                let j = choose|j: int| 0 <= j < init.len() && init[j] == kept(init, now, timeout)[b];
                assert(s[j] == k[b]);
            } else {
                assert(s[s.len() - 1] == k[b]);
            }
        }
    }
}

/// Distinct tokens stay distinct among the kept entries.
proof fn lemma_kept_distinct(s: Seq<PlayEntry>, now: u64, timeout: u64)
    requires
        distinct(play_tokens(s)),
    ensures
        distinct(play_tokens(kept(s, now, timeout))),
    decreases s.len(),
{
    if s.len() > 0 {
        let init = s.drop_last();
        assert forall|a: int, b: int|
            0 <= a < init.len() && 0 <= b < init.len() && a != b implies play_tokens(init)[a]
            != play_tokens(init)[b] by {
            assert(play_tokens(s)[a] != play_tokens(s)[b]);
        }
        lemma_kept_distinct(init, now, timeout);
        lemma_kept_subset(init, now, timeout);
        let k0 = kept(init, now, timeout);
        if !stale(s.last(), now, timeout) {
            let k = k0.push(s.last());
            assert forall|a: int, b: int|
                0 <= a < k.len() && 0 <= b < k.len() && a != b implies play_tokens(k)[a]
                != play_tokens(k)[b] by {
                if a < k0.len() && b < k0.len() {
                    assert(play_tokens(k0)[a] != play_tokens(k0)[b]);
                } else if a < k0.len() {
                    let j = choose|j: int| 0 <= j < init.len() && init[j] == k0[a];
                    assert(play_tokens(s)[j] != play_tokens(s)[s.len() - 1]);
                } else if b < k0.len() {
                    let j = choose|j: int| 0 <= j < init.len() && init[j] == k0[b];
                    assert(play_tokens(s)[j] != play_tokens(s)[s.len() - 1]);
                }
            }
        }
    }
}

impl Registry {
    /// Evicts the Play connections silent for `timeout` or more at `now`
    /// and tells the simulation thread about each of them, once, in order.
    pub fn keep_alive_sweep(&mut self, now: u64, timeout: u64) -> (r: Vec<GameProtocol>)
        requires
            old(self).wf(),
        ensures
            final(self).wf(),
            final(self).play@ == kept(old(self).play@, now, timeout),
            final(self).login@ == old(self).login@,
            final(self).next_token == old(self).next_token,
            r@.len() == stale_tokens(old(self).play@, now, timeout).len(),
            forall|i: int|
                0 <= i < r@.len() ==> #[trigger] r@[i] == (GameProtocol::ForcedDisconnect {
                    token: stale_tokens(old(self).play@, now, timeout)[i],
                    reason: DisconnectReason::Timeout,
                }),
    {
        let gone = self.evict_stale(now, timeout);
        timeout_notices(&gone)
    }
}

/// One `ForcedDisconnect` with reason `Timeout` per token, in order.
pub fn timeout_notices(tokens: &Vec<Token>) -> (r: Vec<GameProtocol>)
    ensures
        r@.len() == tokens@.len(),
        forall|i: int|
            0 <= i < r@.len() ==> #[trigger] r@[i] == (GameProtocol::ForcedDisconnect {
                token: tokens@[i],
                reason: DisconnectReason::Timeout,
            }),
{
    let mut out: Vec<GameProtocol> = Vec::new();
    let mut i: usize = 0;
    while i < tokens.len()
        invariant
            i <= tokens@.len(),
            out@.len() == i,
            forall|j: int|
                0 <= j < i ==> #[trigger] out@[j] == (GameProtocol::ForcedDisconnect {
                    token: tokens@[j],
                    reason: DisconnectReason::Timeout,
                }),
        decreases tokens@.len() - i,
    {
        out.push(GameProtocol::ForcedDisconnect { token: tokens[i], reason: DisconnectReason::Timeout });
        i = i + 1;
    }
    out
}

proof fn lemma_stale_tokens(s: Seq<PlayEntry>, now: u64, timeout: u64)
    requires
        distinct(play_tokens(s)),
    ensures
        distinct(stale_tokens(s, now, timeout)),
        forall|j: int|
            0 <= j < stale_tokens(s, now, timeout).len() ==> exists|i: int|
                0 <= i < s.len() && s[i].token == #[trigger] stale_tokens(s, now, timeout)[j],
        forall|i: int|
            0 <= i < s.len() && stale(#[trigger] s[i], now, timeout) ==> stale_tokens(
                s,
                now,
                timeout,
            ).contains(s[i].token),
        forall|b: int|
            0 <= b < kept(s, now, timeout).len() ==> !stale(
                #[trigger] kept(s, now, timeout)[b],
                now,
                timeout,
            ),
    decreases s.len(),
{
    if s.len() > 0 {
        let init = s.drop_last();
        assert forall|a: int, b: int|
            0 <= a < init.len() && 0 <= b < init.len() && a != b implies play_tokens(init)[a]
            != play_tokens(init)[b] by {
            assert(play_tokens(s)[a] != play_tokens(s)[b]);
        }
        lemma_stale_tokens(init, now, timeout);
        let t0 = stale_tokens(init, now, timeout);
        let t = stale_tokens(s, now, timeout);
        let last = s.len() - 1;
        let k0 = kept(init, now, timeout);
        let k = kept(s, now, timeout);
        assert forall|b: int| 0 <= b < k.len() implies !stale(#[trigger] k[b], now, timeout) by {
            if b < k0.len() {
                assert(k[b] == k0[b]);
            }
        }
        if stale(s.last(), now, timeout) {
            assert forall|a: int, b: int| 0 <= a < t.len() && 0 <= b < t.len() && a != b implies t[a]
                != t[b] by {
                if a < t0.len() && b < t0.len() {
                } else if a < t0.len() {
                    let i = choose|i: int| 0 <= i < init.len() && init[i].token == t0[a];
                    assert(play_tokens(s)[i] != play_tokens(s)[last]);
                } else if b < t0.len() {
                    let i = choose|i: int| 0 <= i < init.len() && init[i].token == t0[b];
                    assert(play_tokens(s)[i] != play_tokens(s)[last]);
                }
            }
            assert forall|j: int| 0 <= j < t.len() implies exists|i: int|
                0 <= i < s.len() && s[i].token == #[trigger] t[j] by {
                if j < t0.len() {
                    let i = choose|i: int| 0 <= i < init.len() && init[i].token == t0[j];
                    assert(s[i].token == t[j]);
                } else {
                    assert(s[last].token == t[j]);
                }
            }
            assert forall|i: int| 0 <= i < s.len() && stale(#[trigger] s[i], now, timeout) implies t.contains(
                s[i].token,
            ) by {
                if i < init.len() {
                    assert(init[i] == s[i]);
                    let k = choose|k: int| 0 <= k < t0.len() && t0[k] == s[i].token;
                    assert(t[k] == s[i].token);
                } else {
                    assert(t[t.len() - 1] == s[i].token);
                }
            }
        } else {
            assert forall|j: int| 0 <= j < t.len() implies exists|i: int|
                0 <= i < s.len() && s[i].token == #[trigger] t[j] by {
                let i = choose|i: int| 0 <= i < init.len() && init[i].token == t0[j];
                assert(s[i].token == t[j]);
            }
            assert forall|i: int| 0 <= i < s.len() && stale(#[trigger] s[i], now, timeout) implies t.contains(
                s[i].token,
            ) by {
                assert(i < init.len());
                assert(init[i] == s[i]);
            }
        }
    }
}

/// A Play connection that has been silent for the timeout is evicted: the
/// sweep reports its token exactly once, and no entry for it is left, so
/// later sweeps do not report it again.
pub proof fn lemma_silent_connection_evicted_once(
    reg: Registry,
    token: Token,
    now: u64,
    timeout: u64,
)
    requires
        reg.wf(),
        exists|i: int|
            0 <= i < reg.play@.len() && reg.play@[i].token == token && stale(
                reg.play@[i],
                now,
                timeout,
            ),
    ensures
        exists|i: int|
            0 <= i < stale_tokens(reg.play@, now, timeout).len() && stale_tokens(
                reg.play@,
                now,
                timeout,
            )[i] == token && forall|j: int|
                0 <= j < stale_tokens(reg.play@, now, timeout).len() && #[trigger] stale_tokens(
                    reg.play@,
                    now,
                    timeout,
                )[j] == token ==> j == i,
        forall|b: int|
            0 <= b < kept(reg.play@, now, timeout).len() ==> (#[trigger] kept(
                reg.play@,
                now,
                timeout,
            )[b]).token != token,
{
    let s = reg.play@;
    lemma_stale_tokens(s, now, timeout);
    lemma_kept_subset(s, now, timeout);
    let i0 = choose|i: int| 0 <= i < s.len() && s[i].token == token && stale(s[i], now, timeout);
    assert(stale(s[i0], now, timeout));
    let t = stale_tokens(s, now, timeout);
    assert(t.contains(token));
    let k = choose|k: int| 0 <= k < t.len() && t[k] == token;
    assert forall|j: int| 0 <= j < t.len() && #[trigger] t[j] == token implies j == k by {
        if j != k {
            assert(t[j] != t[k]);
        }
    }
    let kp = kept(s, now, timeout);
    assert forall|b: int| 0 <= b < kp.len() implies (#[trigger] kp[b]).token != token by {
        let j = choose|j: int| 0 <= j < s.len() && s[j] == kp[b];
        if kp[b].token == token {
            if j != i0 {
                assert(play_tokens(s)[j] != play_tokens(s)[i0]);
            }
            assert(!stale(kp[b], now, timeout));
        }
    }
}

/// After a connection from `ip` is admitted, the registry knows `ip` as
/// logging in, so `accept` refuses a second connection from it (before a
/// token is handed out) until the first leaves the login table.
pub proof fn lemma_admitted_address_refused(before: Registry, after: Registry, ip: u128)
    requires
        after.login@ == before.login@.push(LoginEntry { token: Token(before.next_token), ip }),
    ensures
        after.has_login_ip(ip),
{
    assert(after.login@[before.login@.len() as int].ip == ip);
}

/// The frame a keep-alive sweep sends every Play connection that stays: a
/// keep-alive with id 0.
pub fn keep_alive_probe() -> (r: Vec<u8>)
    ensures
        r@ == frame_bytes(seq![0x00u8] + varint_bytes(0)),
{
    match (Packet::KeepAlive { id: 0 }).serialize_length() {
        Some(frame) => frame,
        None => Vec::new(),
    }
}

} // verus!
