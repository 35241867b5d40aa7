//! Change notification: the event record each successful mutation carries,
//! its wire framing, and the fan-out bus every live connection subscribes to.

use vstd::prelude::*;
use vstd::string::*;
use crate::text::digit_char;

verus! {

/// What a mutation did.
#[derive(Clone, Copy, PartialEq, Eq, Structural, Debug)]
pub enum Action {
    Upload,
    Folder,
    Rename,
    Move,
    Delete,
    Edit,
}

/// The tag an action is reported under.
pub open spec fn action_label(a: Action) -> Seq<char> {
    match a {
        Action::Upload => "upload"@,
        Action::Folder => "folder"@,
        Action::Rename => "rename"@,
        Action::Move => "move"@,
        Action::Delete => "delete"@,
        Action::Edit => "edit"@,
    }
}

/// The action's tag.
pub fn action_str(a: Action) -> (r: &'static str)
    ensures
        r@ == action_label(a),
{
    match a {
        Action::Upload => "upload",
        Action::Folder => "folder",
        Action::Rename => "rename",
        Action::Move => "move",
        Action::Delete => "delete",
        Action::Edit => "edit",
    }
}

/// One completed mutation: its action and the caller-relative path.
pub struct ChangeEvent {
    pub action: Action,
    pub path: String,
}

/// A hex digit, lowercase.
pub open spec fn hex_char(d: int) -> char {
    if d < 10 {
        digit_char(d)
    } else if d == 10 {
        'a'
    } else if d == 11 {
        'b'
    } else if d == 12 {
        'c'
    } else if d == 13 {
        'd'
    } else if d == 14 {
        'e'
    } else {
        'f'
    }
}

/// How one character is written inside a JSON string.
pub open spec fn esc_char(c: char) -> Seq<char> {
    if c == '"' {
        seq!['\\', '"']
    } else if c == '\\' {
        seq!['\\', '\\']
    } else if c == '\u{8}' {
        seq!['\\', 'b']
    } else if c == '\u{9}' {
        seq!['\\', 't']
    } else if c == '\u{A}' {
        seq!['\\', 'n']
    } else if c == '\u{C}' {
        seq!['\\', 'f']
    } else if c == '\u{D}' {
        seq!['\\', 'r']
    } else if (c as u32) < 32 {
        seq!['\\', 'u', '0', '0', hex_char((c as u32) as int / 16), hex_char((c as u32) as int % 16)]
    } else {
        seq![c]
    }
}

/// A whole character sequence written inside a JSON string.
pub open spec fn json_escape(s: Seq<char>) -> Seq<char>
    decreases s.len(),
{
    if s.len() == 0 {
        Seq::empty()
    } else {
        esc_char(s[0]) + json_escape(s.subrange(1, s.len() as int))
    }
}

/// Escaping a concatenation escapes the parts.
proof fn lemma_json_escape_add(a: Seq<char>, b: Seq<char>)
    ensures
        json_escape(a + b) == json_escape(a) + json_escape(b),
    decreases a.len(),
{
    if a.len() == 0 {
        assert(a + b =~= b);
        assert(json_escape(a) + json_escape(b) =~= json_escape(b));
    } else {
        assert((a + b).subrange(1, (a + b).len() as int) =~= a.subrange(1, a.len() as int) + b);
        lemma_json_escape_add(a.subrange(1, a.len() as int), b);
        assert(json_escape(a + b) =~= json_escape(a) + json_escape(b));
    }
}

/// Escaping one further character appends its escape.
proof fn lemma_json_escape_snoc(s: Seq<char>, i: int)
    requires
        0 <= i < s.len(),
    ensures
        json_escape(s.take(i + 1)) == json_escape(s.take(i)) + esc_char(s[i]),
{
    reveal_with_fuel(json_escape, 3);
    assert(s.take(i + 1) =~= s.take(i) + seq![s[i]]);
    lemma_json_escape_add(s.take(i), seq![s[i]]);
    assert(seq![s[i]].subrange(1, 1) =~= Seq::<char>::empty());
    assert(json_escape(seq![s[i]]) =~= esc_char(s[i]));
}

/// Appends `s` to `out` in JSON string form.
fn append_json_escaped(out: &mut String, s: &str)
    ensures
        final(out)@ == old(out)@ + json_escape(s@),
{
    let len = s.unicode_len();
    let mut i: usize = 0;
    proof {
        assert(s@.take(0) =~= Seq::<char>::empty());
        assert(old(out)@ + json_escape(s@.take(0)) =~= old(out)@);
    }
    while i < len
        invariant
            i <= len,
            len == s@.len(),
            out@ == old(out)@ + json_escape(s@.take(i as int)),
        decreases len - i,
    {
        let c = s.get_char(i);
        proof {
            reveal_strlit("\\\"");
            reveal_strlit("\\\\");
            reveal_strlit("\\b");
            reveal_strlit("\\t");
            reveal_strlit("\\n");
            reveal_strlit("\\f");
            reveal_strlit("\\r");
            reveal_strlit("\\u00");
        }
        if c == '"' {
            out.append("\\\"");
            assert(out@ =~= old(out)@ + json_escape(s@.take(i as int)) + esc_char(c));
        } else if c == '\\' {
            out.append("\\\\");
            assert(out@ =~= old(out)@ + json_escape(s@.take(i as int)) + esc_char(c));
        } else if c == '\u{8}' {
            out.append("\\b");
            assert(out@ =~= old(out)@ + json_escape(s@.take(i as int)) + esc_char(c));
        } else if c == '\u{9}' {
            out.append("\\t");
            assert(out@ =~= old(out)@ + json_escape(s@.take(i as int)) + esc_char(c));
        } else if c == '\u{A}' {
            out.append("\\n");
            assert(out@ =~= old(out)@ + json_escape(s@.take(i as int)) + esc_char(c));
        } else if c == '\u{C}' {
            out.append("\\f");
            assert(out@ =~= old(out)@ + json_escape(s@.take(i as int)) + esc_char(c));
        } else if c == '\u{D}' {
            out.append("\\r");
            assert(out@ =~= old(out)@ + json_escape(s@.take(i as int)) + esc_char(c));
        } else if (c as u32) < 32 {
            out.append("\\u00");
            let hi = (c as u32) / 16;
            let lo = (c as u32) % 16;
            append_hex_digit(out, hi);
            append_hex_digit(out, lo);
            assert(out@ =~= old(out)@ + json_escape(s@.take(i as int)) + esc_char(c));
        } else {
            let piece = s.substring_char(i, i + 1);
            out.append(piece);
            assert(out@ =~= old(out)@ + json_escape(s@.take(i as int)) + esc_char(c));
        }
        proof {
            lemma_json_escape_snoc(s@, i as int);
        }
        i = i + 1;
    }
    proof {
        assert(s@.take(len as int) =~= s@);
    }
}

/// Appends one lowercase hex digit.
fn append_hex_digit(out: &mut String, d: u32)
    requires
        d < 16,
    ensures
        final(out)@ == old(out)@ + seq![hex_char(d as int)],
{
    proof {
        reveal_strlit("0");
        reveal_strlit("1");
        reveal_strlit("2");
        reveal_strlit("3");
        reveal_strlit("4");
        reveal_strlit("5");
        reveal_strlit("6");
        reveal_strlit("7");
        reveal_strlit("8");
        reveal_strlit("9");
        reveal_strlit("a");
        reveal_strlit("b");
        reveal_strlit("c");
        reveal_strlit("d");
        reveal_strlit("e");
        reveal_strlit("f");
    }
    let digit: &str = if d == 0 {
        "0"
    } else if d == 1 {
        "1"
    } else if d == 2 {
        "2"
    } else if d == 3 {
        "3"
    } else if d == 4 {
        "4"
    } else if d == 5 {
        "5"
    } else if d == 6 {
        "6"
    } else if d == 7 {
        "7"
    } else if d == 8 {
        "8"
    } else if d == 9 {
        "9"
    } else if d == 10 {
        "a"
    } else if d == 11 {
        "b"
    } else if d == 12 {
        "c"
    } else if d == 13 {
        "d"
    } else if d == 14 {
        "e"
    } else {
        "f"
    };
    assert(digit@ =~= seq![hex_char(d as int)]);
    out.append(digit);
}

/// The message a mutation broadcasts: a JSON object with the action tag
/// and the caller-relative path.
pub open spec fn event_json_spec(a: Action, path: Seq<char>) -> Seq<char> {
    "{\"action\":\""@ + action_label(a) + "\",\"path\":\""@ + json_escape(path) + "\"}"@
}

/// Frames one event for the wire.
pub fn event_json(a: Action, path: &String) -> (r: String)
    ensures
        r@ == event_json_spec(a, path@),
{
    let mut out = String::new();
    out.append("{\"action\":\"");
    out.append(action_str(a));
    out.append("\",\"path\":\"");
    append_json_escaped(&mut out, path.as_str());
    out.append("\"}");
    proof {
        assert(out@ =~= event_json_spec(a, path@));
    }
    out
}

/// One live connection's place on the bus.
pub struct Subscriber {
    /// Never reused within one bus.
    pub id: u64,
    /// Messages published since subscribing and not yet taken, oldest first.
    pub queue: Vec<String>,
}

/// What one publish does to one subscriber's queue: the message is
/// appended; a full queue first drops its oldest message.
pub open spec fn deliver(q: Seq<String>, msg: Seq<char>, cap: int) -> Seq<Seq<char>> {
    if crate::text::views_of(q).len() < cap {
        crate::text::views_of(q).push(msg)
    } else {
        crate::text::views_of(q).drop_first().push(msg)
    }
}

/// The process-wide fan-out point. Mutations publish; each live connection
/// subscribes on arrival, drains its own bounded queue, and unsubscribes
/// when it ends. Publishing never waits on a slow reader: a full queue
/// drops its oldest message.
pub struct ChangeBus {
    /// The live subscriptions, in subscription order.
    pub subs: Vec<Subscriber>,
    /// The next subscription id to hand out.
    pub next_id: u64,
    /// Each queue holds at most this many messages.
    pub cap: usize,
}

impl ChangeBus {
    /// Ids are distinct, below `next_id`, and queues respect the bound.
    pub open spec fn wf(self) -> bool {
        &&& self.cap >= 1
        &&& forall|i: int| 0 <= i < self.subs@.len() ==> (#[trigger] self.subs@[i].id) < self.next_id
        &&& forall|i: int, j: int|
            0 <= i < j < self.subs@.len() ==> self.subs@[i].id != self.subs@[j].id
        &&& forall|i: int|
            0 <= i < self.subs@.len() ==> (#[trigger] self.subs@[i].queue@.len()) <= self.cap
    }

    /// A bus with no subscribers yet.
    pub fn new(cap: usize) -> (b: ChangeBus)
        requires
            cap >= 1,
        ensures
            b.wf(),
            b.subs@.len() == 0,
            b.cap == cap,
    {
        ChangeBus { subs: Vec::new(), next_id: 0, cap }
    }

    /// Adds a subscriber with a fresh id and an empty queue: a connection
    /// subscribing now sees nothing published before.
    pub fn subscribe(&mut self) -> (id: u64)
        requires
            old(self).wf(),
            old(self).next_id < u64::MAX,
        ensures
            final(self).wf(),
            final(self).cap == old(self).cap,
            final(self).subs@.len() == old(self).subs@.len() + 1,
            final(self).subs@.drop_last() == old(self).subs@,
            final(self).subs@.last().id == id,
            final(self).subs@.last().queue@.len() == 0,
            id == old(self).next_id,
    {
        let id = self.next_id;
        self.next_id = self.next_id + 1;
        self.subs.push(Subscriber { id, queue: Vec::new() });
        proof {
            assert(self.subs@.drop_last() =~= old(self).subs@);
        }
        id
    }

    /// The position of a subscriber id, if it is live.
    pub open spec fn find_spec(subs: Seq<Subscriber>, id: u64) -> int
        decreases subs.len(),
    {
        if subs.len() == 0 {
            -1
        } else if subs[0].id == id {
            0
        } else if Self::find_spec(subs.drop_first(), id) == -1 {
            -1
        } else {
            1 + Self::find_spec(subs.drop_first(), id)
        }
    }

    /// What `find_spec` finds is in range and carries the id; `-1` means
    /// no subscriber has it.
    pub proof fn lemma_find(subs: Seq<Subscriber>, id: u64)
        ensures
            -1 <= Self::find_spec(subs, id) < subs.len(),
            Self::find_spec(subs, id) >= 0 ==> subs[Self::find_spec(subs, id)].id == id,
            Self::find_spec(subs, id) == -1 ==> forall|i: int|
                0 <= i < subs.len() ==> (#[trigger] subs[i].id) != id,
        decreases subs.len(),
    {
        if subs.len() > 0 && subs[0].id != id {
            Self::lemma_find(subs.drop_first(), id);
            let k = Self::find_spec(subs, id);
            if k >= 0 {
                assert(subs.drop_first()[k - 1] == subs[k]);
            } else {
                assert forall|i: int| 0 <= i < subs.len() implies (#[trigger] subs[i].id)
                    != id by {
                    if i > 0 {
                        assert(subs.drop_first()[i - 1] == subs[i]);
                        assert(subs.drop_first()[i - 1].id != id);
                    }
                }
            }
        }
    }

    /// A match at `i`, with none before it, is what `find_spec` returns.
    proof fn lemma_find_at(subs: Seq<Subscriber>, id: u64, i: int)
        requires
            0 <= i < subs.len(),
            subs[i].id == id,
            forall|k: int| 0 <= k < i ==> (#[trigger] subs[k].id) != id,
        ensures
            Self::find_spec(subs, id) == i,
        decreases subs.len(),
    {
        if i > 0 {
            assert forall|k: int| 0 <= k < i - 1 implies (#[trigger] subs.drop_first()[k].id)
                != id by {
                assert(subs.drop_first()[k] == subs[k + 1]);
            }
            assert(subs.drop_first()[i - 1] == subs[i]);
            Self::lemma_find_at(subs.drop_first(), id, i - 1);
        }
    }

    /// With no match anywhere, `find_spec` returns `-1`.
    proof fn lemma_find_none(subs: Seq<Subscriber>, id: u64)
        requires
            forall|k: int| 0 <= k < subs.len() ==> (#[trigger] subs[k].id) != id,
        ensures
            Self::find_spec(subs, id) == -1,
        decreases subs.len(),
    {
        if subs.len() > 0 {
            assert forall|k: int| 0 <= k < subs.drop_first().len() implies (#[trigger] subs
                .drop_first()[k].id) != id by {
                assert(subs.drop_first()[k] == subs[k + 1]);
            }
            Self::lemma_find_none(subs.drop_first(), id);
        }
    }

    /// Finds a subscriber's position.
    fn find(&self, id: u64) -> (r: Option<usize>)
        ensures
            r matches Some(i) ==> 0 <= i < self.subs@.len() && Self::find_spec(self.subs@, id)
                == i as int,
            r is None ==> Self::find_spec(self.subs@, id) == -1,
    {
        let mut i: usize = 0;
        while i < self.subs.len()
            invariant
                i <= self.subs@.len(),
                forall|k: int| 0 <= k < i ==> (#[trigger] self.subs@[k].id) != id,
            decreases self.subs@.len() - i,
        {
            if self.subs[i].id == id {
                proof {
                    Self::lemma_find_at(self.subs@, id, i as int);
                }
                return Some(i);
            }
            i = i + 1;
        }
        proof {
            Self::lemma_find_none(self.subs@, id);
        }
        None
    }

    /// One queue after a publish: the message appended, the oldest entry
    /// dropped first when the queue is at the bound.
    fn requeue(q: &Vec<String>, cap: usize, msg: &String) -> (r: Vec<String>)
        requires
            cap >= 1,
            q@.len() <= cap,
        ensures
            crate::text::views_of(r@) == deliver(q@, msg@, cap as int),
            r@.len() <= cap,
    {
        let start: usize = if q.len() >= cap {
            1
        } else {
            0
        };
        let mut r: Vec<String> = Vec::new();
        let mut i: usize = start;
        while i < q.len()
            invariant
                start <= i <= q@.len(),
                crate::text::views_of(r@) =~= crate::text::views_of(q@).subrange(
                    start as int,
                    i as int,
                ),
                r@.len() == i - start,
            decreases q@.len() - i,
        {
            let ghost entry = r@;
            let s = q[i].clone();
            r.push(s);
            proof {
                crate::text::lemma_views_push(entry, s);
                assert(crate::text::views_of(q@).subrange(start as int, i + 1)
                    =~= crate::text::views_of(q@).subrange(start as int, i as int).push(
                    crate::text::views_of(q@)[i as int],
                ));
            }
            i = i + 1;
        }
        let ghost entry = r@;
        let m = msg.clone();
        r.push(m);
        proof {
            crate::text::lemma_views_push(entry, m);
            if start == 1 {
                assert(crate::text::views_of(q@).subrange(1, q@.len() as int)
                    =~= crate::text::views_of(q@).drop_first());
            } else {
                assert(crate::text::views_of(q@).subrange(0, q@.len() as int)
                    =~= crate::text::views_of(q@));
            }
            assert(crate::text::views_of(r@) =~= deliver(q@, msg@, cap as int));
        }
        r
    }

    /// Publishes one framed message to every live subscriber's queue,
    /// dropping the oldest message of a queue already at the bound; a
    /// subscriber that arrives later will not see it.
    pub fn publish(&mut self, msg: &String)
        requires
            old(self).wf(),
        ensures
            final(self).wf(),
            final(self).cap == old(self).cap,
            final(self).next_id == old(self).next_id,
            final(self).subs@.len() == old(self).subs@.len(),
            forall|i: int|
                0 <= i < final(self).subs@.len() ==> (#[trigger] final(self).subs@[i].id) == old(
                    self,
                ).subs@[i].id,
            forall|i: int|
                0 <= i < final(self).subs@.len() ==> crate::text::views_of(
                    #[trigger] final(self).subs@[i].queue@,
                ) == deliver(old(self).subs@[i].queue@, msg@, old(self).cap as int),
    {
        let n = self.subs.len();
        let mut updated: Vec<Subscriber> = Vec::new();
        let mut i: usize = 0;
        while i < n
            invariant
                i <= n,
                n == self.subs@.len(),
                self.subs@ == old(self).subs@,
                self.cap == old(self).cap,
                self.cap >= 1,
                old(self).wf(),
                updated@.len() == i,
                forall|k: int|
                    0 <= k < i ==> (#[trigger] updated@[k].id) == old(self).subs@[k].id,
                forall|k: int|
                    0 <= k < i ==> crate::text::views_of(#[trigger] updated@[k].queue@) == deliver(
                        old(self).subs@[k].queue@,
                        msg@,
                        self.cap as int,
                    ),
                forall|k: int|
                    0 <= k < i ==> (#[trigger] updated@[k].queue@.len()) <= self.cap,
            decreases n - i,
        {
            let nq = Self::requeue(&self.subs[i].queue, self.cap, msg);
            updated.push(Subscriber { id: self.subs[i].id, queue: nq });
            i = i + 1;
        }
        self.subs = updated;
    }

    /// Ends a subscription; the other subscribers are untouched. Nothing
    /// changes when the id is not live.
    pub fn unsubscribe(&mut self, id: u64)
        requires
            old(self).wf(),
        ensures
            final(self).wf(),
            final(self).cap == old(self).cap,
            Self::find_spec(old(self).subs@, id) == -1 ==> final(self).subs@ == old(self).subs@,
            Self::find_spec(old(self).subs@, id) >= 0 ==> final(self).subs@ == old(
                self,
            ).subs@.remove(Self::find_spec(old(self).subs@, id)),
    {
        proof {
            Self::lemma_find(self.subs@, id);
        }
        match self.find(id) {
            Some(i) => {
                self.subs.remove(i);
                proof {
                    let s = old(self).subs@;
                    let k = Self::find_spec(s, id);
                    assert forall|p: int, q: int|
                        0 <= p < q < self.subs@.len() implies self.subs@[p].id
                        != self.subs@[q].id by {
                        assert(s.remove(k)[p] == if p < k {
                            s[p]
                        } else {
                            s[p + 1]
                        });
                        assert(s.remove(k)[q] == if q < k {
                            s[q]
                        } else {
                            s[q + 1]
                        });
                    }
                }
            },
            None => {},
        }
    }

    /// Takes the oldest waiting message for a subscriber, if any.
    pub fn next_message(&mut self, id: u64) -> (r: Option<String>)
        requires
            old(self).wf(),
        ensures
            final(self).wf(),
            final(self).cap == old(self).cap,
            final(self).subs@.len() == old(self).subs@.len(),
            ({
                let k = Self::find_spec(old(self).subs@, id);
                if k >= 0 && old(self).subs@[k].queue@.len() > 0 {
                    &&& r matches Some(m) && m@ == old(self).subs@[k].queue@[0]@
                    &&& final(self).subs@ == old(self).subs@.update(
                        k,
                        final(self).subs@[k],
                    )
                    &&& final(self).subs@[k].id == id
                    &&& final(self).subs@[k].queue@ == old(self).subs@[k].queue@.drop_first()
                } else {
                    r is None && final(self).subs@ == old(self).subs@
                }
            }),
    {
        proof {
            Self::lemma_find(self.subs@, id);
        }
        match self.find(id) {
            Some(i) => {
                if self.subs[i].queue.len() > 0 {
                    let sub = self.subs.remove(i);
                    let mut queue = sub.queue;
                    let m = queue.remove(0);
                    self.subs.insert(i, Subscriber { id: sub.id, queue });
                    proof {
                        let k = i as int;
                        assert(old(self).subs@[k].queue@.remove(0) =~= old(
                            self,
                        ).subs@[k].queue@.drop_first());
                        assert(old(self).subs@.remove(k).insert(k, self.subs@[k]) =~= old(
                            self,
                        ).subs@.update(k, self.subs@[k]));
                        assert forall|p: int, q: int|
                            0 <= p < q < self.subs@.len() implies self.subs@[p].id
                            != self.subs@[q].id by {
                            assert(self.subs@[p] == if p == k {
                                self.subs@[k]
                            } else {
                                old(self).subs@[p]
                            });
                            assert(self.subs@[q] == if q == k {
                                self.subs@[k]
                            } else {
                                old(self).subs@[q]
                            });
                        }
                    }
                    Some(m)
                } else {
                    None
                }
            },
            None => None,
        }
    }
}

/// Publishes one change event: frames it and hands it to every subscriber.
pub fn broadcast_update(bus: &mut ChangeBus, action: Action, path: &String)
    requires
        old(bus).wf(),
    ensures
        final(bus).wf(),
        final(bus).cap == old(bus).cap,
        final(bus).subs@.len() == old(bus).subs@.len(),
        forall|i: int|
            0 <= i < final(bus).subs@.len() ==> (#[trigger] final(bus).subs@[i].id) == old(
                bus,
            ).subs@[i].id,
        forall|i: int|
            0 <= i < final(bus).subs@.len() ==> crate::text::views_of(
                #[trigger] final(bus).subs@[i].queue@,
            ) == deliver(old(bus).subs@[i].queue@, event_json_spec(action, path@), old(
                bus,
            ).cap as int),
{
    let msg = event_json(action, path);
    bus.publish(&msg);
}

/// What a connection's loop may observe while it races its peer against
/// the bus.
pub enum ConnEvent {
    /// A framed message arrived on the subscription.
    Bus(String),
    /// The subscription reported an error; the message, if any, is lost.
    BusLost,
    /// The peer pinged; it must be answered to keep the connection alive.
    Ping(Vec<u8>),
    /// The peer closed, or its stream ended.
    PeerClosed,
    /// Any other peer frame.
    PeerOther,
}

/// What the connection must do in response.
pub enum ConnAction {
    /// Relay this text to the peer.
    SendText(String),
    /// Answer the ping with this payload.
    Pong(Vec<u8>),
    /// Leave the loop and close.
    Stop,
    /// Nothing.
    Ignore,
}

/// One turn of a connection's loop: bus messages are relayed, pings
/// answered, a close ends the loop, everything else is ignored.
pub fn conn_step(event: ConnEvent) -> (r: ConnAction)
    ensures
        match event {
            ConnEvent::Bus(m) => r matches ConnAction::SendText(t) && t@ == m@,
            ConnEvent::BusLost => r is Ignore,
            ConnEvent::Ping(p) => r matches ConnAction::Pong(q) && q@ == p@,
            ConnEvent::PeerClosed => r is Stop,
            ConnEvent::PeerOther => r is Ignore,
        },
{
    match event {
        ConnEvent::Bus(m) => ConnAction::SendText(m),
        ConnEvent::BusLost => ConnAction::Ignore,
        ConnEvent::Ping(p) => ConnAction::Pong(p),
        ConnEvent::PeerClosed => ConnAction::Stop,
        ConnEvent::PeerOther => ConnAction::Ignore,
    }
}

} // verus!
