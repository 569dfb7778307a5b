//! Queue settings of the worker runtime.

use vstd::prelude::*;
use crate::text::{
    char_pos, find_char, lemma_char_pos, parse_usize, parse_usize_spec, slice_chars, split_all,
    string_from_chars, trim, trim_chars, chars_of,
};

verus! {

/// A queue served by the worker runtime: its name, how many workers serve
/// it, and its priority.
#[derive(Debug, Clone)]
pub struct QueueConfig {
    pub name: String,
    pub concurrency: usize,
    pub priority: usize,
}

impl QueueConfig {
    pub fn new(name: String, concurrency: usize, priority: usize) -> (q: QueueConfig)
        ensures
            q.name@ == name@,
            q.concurrency == concurrency,
            q.priority == priority,
    {
        QueueConfig { name, concurrency, priority }
    }

    pub open spec fn view(&self) -> (Seq<char>, usize, usize) {
        (self.name@, self.concurrency, self.priority)
    }
}

/// One entry `name[:concurrency[:priority]]` of a queue list: blank entries
/// are dropped; the name is trimmed; a concurrency that is absent or not a
/// number is 5, a priority likewise 0 (numbers are read untrimmed).
pub open spec fn queue_entry(raw: Seq<char>) -> Option<(Seq<char>, usize, usize)> {
    let s = trim(raw);
    if s.len() == 0 {
        None
    } else {
        let parts = split_all(s, ':');
        let name = trim(parts[0]);
        let concurrency = if parts.len() > 1 {
            match parse_usize_spec(parts[1]) {
                Some(n) => n,
                None => 5,
            }
        } else {
            5
        };
        let priority = if parts.len() > 2 {
            match parse_usize_spec(parts[2]) {
                Some(n) => n,
                None => 0,
            }
        } else {
            0
        };
        Some((name, concurrency, priority))
    }
}

/// The queues of the comma-separated entries `pieces`, blank ones dropped.
pub open spec fn queue_entries(pieces: Seq<Seq<char>>) -> Seq<(Seq<char>, usize, usize)>
    decreases pieces.len(),
{
    if pieces.len() == 0 {
        seq![]
    } else {
        let rest = queue_entries(pieces.drop_first());
        match queue_entry(pieces[0]) {
            Some(q) => seq![q] + rest,
            None => rest,
        }
    }
}

/// The queues that a list such as `default:10,critical:25:0` names.
pub open spec fn parse_queues_spec(spec: Seq<char>) -> Seq<(Seq<char>, usize, usize)> {
    queue_entries(split_all(spec, ','))
}

proof fn lemma_split_all_len(s: Seq<char>, c: char)
    ensures
        split_all(s, c).len() >= 1,
        split_all(s, c)[0] == s.take(char_pos(s, c) as int),
    decreases s.len(),
{
    lemma_char_pos(s, c);
    if char_pos(s, c) == s.len() {
        assert(s.take(s.len() as int) =~= s);
    }
}

/// Splitting at `c` a text that has a `c` after a part without one gives
/// that part, then the splits of the rest.
proof fn lemma_split_after(x: Seq<char>, y: Seq<char>, c: char)
    requires
        !x.contains(c),
    ensures
        split_all(x + seq![c] + y, c) == seq![x] + split_all(y, c),
{
    let s = x + seq![c] + y;
    lemma_char_pos(s, c);
    assert(s[x.len() as int] == c);
    if char_pos(s, c) < x.len() {
        assert(x[char_pos(s, c) as int] == c);
    }
    assert(char_pos(s, c) == x.len());
    assert(s.take(x.len() as int) =~= x);
    assert(s.skip((x.len() + 1) as int) =~= y);
}

/// A text without `c` splits into itself.
proof fn lemma_split_none(x: Seq<char>, c: char)
    requires
        !x.contains(c),
    ensures
        split_all(x, c) == seq![x],
{
    lemma_char_pos(x, c);
}

/// An entry `name:c:p` whose concurrency and priority are decimal numbers
/// names the queue `name` (trimmed) with concurrency `c` and priority `p`,
/// each read from its own part.
pub proof fn law_entry_fields(name: Seq<char>, cs: Seq<char>, ps: Seq<char>, c: usize, p: usize)
    requires
        name.len() > 0,
        !crate::text::is_ws(name[0]),
        !name.contains(':'),
        !cs.contains(':'),
        !ps.contains(':'),
        parse_usize_spec(cs) == Some(c),
        parse_usize_spec(ps) == Some(p),
    ensures
        queue_entry(name + seq![':'] + cs + seq![':'] + ps) == Some((trim(name), c, p)),
{
    let e = name + seq![':'] + cs + seq![':'] + ps;
    let rest = cs + seq![':'] + ps;
    assert(e =~= name + seq![':'] + rest);
    lemma_split_after(name, rest, ':');
    lemma_split_after(cs, ps, ':');
    lemma_split_none(ps, ':');
    assert(split_all(e, ':') =~= seq![name, cs, ps]);
    let d = if ps.len() > 0 && ps[0] == '+' { ps.drop_first() } else { ps };
    assert(d.len() > 0 && crate::text::all_digits(d));
    assert(ps.last() == d.last());
    assert(crate::text::is_digit(d[d.len() - 1]));
    assert(!crate::text::is_ws(e.last()));
    assert(e[0] == name[0]);
    assert(crate::text::trim_start(e) == e);
    assert(crate::text::trim_end(e) == e);
}

/// Parses one entry of a queue list.
fn parse_entry(raw: &Vec<char>) -> (r: Option<QueueConfig>)
    ensures
        match queue_entry(raw@) {
            Some(q) => r matches Some(c) && c.view() == q,
            None => r is None,
        },
{
    let s = trim_chars(raw);
    if s.len() == 0 {
        return None;
    }
    let p1 = find_char(&s, ':');
    proof {
        lemma_char_pos(s@, ':');
        lemma_split_all_len(s@, ':');
    }
    let name_chars = trim_chars(&slice_chars(&s, 0, p1));
    assert(s@.subrange(0, p1 as int) =~= s@.take(p1 as int));
    let name = string_from_chars(&name_chars);
    let mut concurrency: usize = 5;
    let mut priority: usize = 0;
    if p1 < s.len() {
        let rest1 = slice_chars(&s, p1 + 1, s.len());
        assert(rest1@ =~= s@.skip((p1 + 1) as int));
        let p2 = find_char(&rest1, ':');
        proof {
            lemma_char_pos(rest1@, ':');
            lemma_split_all_len(rest1@, ':');
        }
        let part1 = slice_chars(&rest1, 0, p2);
        assert(part1@ =~= rest1@.take(p2 as int));
        if let Some(n) = parse_usize(&part1) {
            concurrency = n;
        }
        if p2 < rest1.len() {
            let rest2 = slice_chars(&rest1, p2 + 1, rest1.len());
            assert(rest2@ =~= rest1@.skip((p2 + 1) as int));
            let p3 = find_char(&rest2, ':');
            proof {
                lemma_char_pos(rest2@, ':');
                lemma_split_all_len(rest2@, ':');
            }
            let part2 = slice_chars(&rest2, 0, p3);
            assert(part2@ =~= rest2@.take(p3 as int));
            if let Some(n) = parse_usize(&part2) {
                priority = n;
            }
        } else {
            assert(split_all(rest1@, ':').len() == 1);
        }
    } else {
        assert(split_all(s@, ':').len() == 1);
    }
    Some(QueueConfig::new(name, concurrency, priority))
}

/// The queues of a list such as `default:10,critical:25:0`; see
/// [`parse_queues_spec`].
pub fn parse_queues(spec: &str) -> (r: Vec<QueueConfig>)
    ensures
        r@.len() == parse_queues_spec(spec@).len(),
        forall|i: int| 0 <= i < r@.len() ==> #[trigger] r@[i].view() == parse_queues_spec(spec@)[i],
{
    let chars = chars_of(spec);
    let mut out: Vec<QueueConfig> = Vec::new();
    let ghost mut done: Seq<(Seq<char>, usize, usize)> = seq![];
    let mut rest = slice_chars(&chars, 0, chars.len());
    assert(rest@ =~= spec@);
    loop
        invariant
            parse_queues_spec(spec@) == done + queue_entries(split_all(rest@, ',')),
            out@.len() == done.len(),
            forall|i: int| 0 <= i < out@.len() ==> #[trigger] out@[i].view() == done[i],
        decreases rest.len(),
    {
        let p = find_char(&rest, ',');
        proof {
            lemma_char_pos(rest@, ',');
        }
        let piece = slice_chars(&rest, 0, p);
        assert(piece@ =~= rest@.take(p as int));
        let entry = parse_entry(&piece);
        let ghost pieces = split_all(rest@, ',');
        proof {
            if p < rest.len() {
                assert(pieces == seq![piece@] + split_all(rest@.skip((p + 1) as int), ','));
                assert(pieces.drop_first() =~= split_all(rest@.skip((p + 1) as int), ','));
            } else {
                assert(rest@.take(p as int) =~= rest@);
                assert(pieces.drop_first() =~= Seq::<Seq<char>>::empty());
            }
        }
        let ghost old_done = done;
        proof {
            assert(pieces[0] == piece@);
            assert(queue_entries(pieces) == match queue_entry(piece@) {
                Some(q) => seq![q] + queue_entries(pieces.drop_first()),
                None => queue_entries(pieces.drop_first()),
            });
        }
        match entry {
            Some(q) => {
                proof {
                    done = done.push(q.view());
                }
                out.push(q);
            },
            None => {},
        }
        if p < rest.len() {
            let next = slice_chars(&rest, p + 1, rest.len());
            assert(next@ =~= rest@.skip((p + 1) as int));
            proof {
                match queue_entry(piece@) {
                    Some(q) => {
                        assert(old_done + (seq![q] + queue_entries(split_all(next@, ',')))
                            =~= done + queue_entries(split_all(next@, ',')));
                    },
                    None => {},
                }
            }
            rest = next;
        } else {
            proof {
                assert(queue_entries(pieces.drop_first()) == Seq::<(Seq<char>, usize, usize)>::empty());
                match queue_entry(piece@) {
                    Some(q) => {
                        assert(old_done + (seq![q] + Seq::<(Seq<char>, usize, usize)>::empty()) =~= done);
                    },
                    None => {
                        assert(old_done + Seq::<(Seq<char>, usize, usize)>::empty() =~= done);
                    },
                }
            }
            return out;
        }
    }
}

} // verus!
