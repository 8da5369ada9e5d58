//! A plain listing of labs and the console lines of their nodes: labs
//! sorted by state, owner, title and identifier, their nodes by state,
//! label and identifier, and one text line for each console line.

use vstd::prelude::*;
use vstd::string::StringExecFns;
use crate::api::chars_of;
use crate::rest::{decimal, decimal_string};
use crate::rest_types::State;

verus! {

/// A node of a lab in a listing, with the keys of its console lines, or why
/// it has none.
pub struct ListingEntryConsoleNode {
    pub state: State,
    pub label: String,
    pub id: String,
    pub lines: Result<Vec<String>, String>,
}

/// A lab in a listing, with its nodes, or why it has none.
pub struct ListingEntry {
    pub state: State,
    pub title: String,
    pub id: String,
    pub owner: String,
    pub nodes: Result<Vec<ListingEntryConsoleNode>, String>,
}

// ---------------------------------------------------------------------------
// Order
// ---------------------------------------------------------------------------

/// The place of a state in the order of states: booted first.
pub open spec fn state_rank(s: State) -> int {
    match s {
        State::Booted => 0,
        State::Started => 1,
        State::Queued => 2,
        State::Stopped => 3,
        State::DefinedOnCore => 4,
        State::DefinedOnCluster => 5,
    }
}

fn rank(s: State) -> (r: u8)
    ensures
        r as int == state_rank(s),
{
    match s {
        State::Booted => 0,
        State::Started => 1,
        State::Queued => 2,
        State::Stopped => 3,
        State::DefinedOnCore => 4,
        State::DefinedOnCluster => 5,
    }
}

/// The order of texts, character by character (for UTF-8 text, the order of
/// its bytes): -1 where `a` comes first, 0 where they are equal, 1 where `b`
/// comes first.
pub open spec fn text_order(a: Seq<char>, b: Seq<char>) -> int
    decreases a.len(),
{
    if a.len() == 0 {
        if b.len() == 0 { 0 } else { -1 }
    } else if b.len() == 0 {
        1
    } else if a[0] != b[0] {
        if (a[0] as u32) < (b[0] as u32) { -1 } else { 1 }
    } else {
        text_order(a.drop_first(), b.drop_first())
    }
}

/// Different characters have different codes.
proof fn lemma_char_code(a: char, b: char)
    ensures
        a != b ==> (a as u32) != (b as u32),
{
    vstd::utf8::char_u32_cast(a, a as u32);
    vstd::utf8::char_u32_cast(b, b as u32);
}

/// The text order is an order: it is -1, 0 or 1, 0 exactly on equal texts,
/// and reversed when the texts are swapped.
pub proof fn lemma_text_order(a: Seq<char>, b: Seq<char>)
    ensures
        -1 <= text_order(a, b) <= 1,
        text_order(a, b) == 0 <==> a == b,
        text_order(b, a) == -text_order(a, b),
    decreases a.len(),
{
    if a.len() > 0 && b.len() > 0 && a[0] == b[0] {
        lemma_text_order(a.drop_first(), b.drop_first());
        if a.drop_first() == b.drop_first() {
            assert(a =~= seq![a[0]] + a.drop_first());
            assert(b =~= seq![b[0]] + b.drop_first());
        }
    }
    if a.len() > 0 && b.len() > 0 && a[0] != b[0] {
        lemma_char_code(a[0], b[0]);
    }
    if a.len() == 0 && b.len() == 0 {
        assert(a =~= b);
    }
}

/// The text order is transitive.
pub proof fn lemma_text_order_trans(a: Seq<char>, b: Seq<char>, c: Seq<char>)
    requires
        text_order(a, b) <= 0,
        text_order(b, c) <= 0,
    ensures
        text_order(a, c) <= 0,
    decreases a.len(),
{
    lemma_text_order(a, b);
    lemma_text_order(b, c);
    lemma_text_order(a, c);
    if a.len() > 0 && b.len() > 0 && c.len() > 0 && a[0] == b[0] && b[0] == c[0] {
        lemma_text_order_trans(a.drop_first(), b.drop_first(), c.drop_first());
    }
    if a.len() > 0 && b.len() > 0 && c.len() > 0 {
        lemma_char_code(a[0], b[0]);
        lemma_char_code(b[0], c[0]);
        lemma_char_code(a[0], c[0]);
    }
}

fn text_order_exec(a: &str, b: &str) -> (r: i8)
    ensures
        r as int == text_order(a@, b@),
{
    let x = chars_of(a);
    let y = chars_of(b);
    let mut i: usize = 0;
    proof {
        assert(x@.skip(0) =~= x@);
        assert(y@.skip(0) =~= y@);
    }
    loop
        invariant
            x@ == a@,
            y@ == b@,
            i <= x@.len(),
            i <= y@.len(),
            text_order(a@, b@) == text_order(x@.skip(i as int), y@.skip(i as int)),
        decreases x@.len() - i,
    {
        if i == x.len() {
            return if i == y.len() { 0 } else { -1 };
        }
        if i == y.len() {
            return 1;
        }
        if x[i] != y[i] {
            return if (x[i] as u32) < (y[i] as u32) { -1 } else { 1 };
        }
        proof {
            assert(x@.skip(i as int).drop_first() =~= x@.skip(i + 1));
            assert(y@.skip(i as int).drop_first() =~= y@.skip(i + 1));
        }
        i = i + 1;
    }
}

/// The sign of `x - y`.
pub open spec fn sign(x: int, y: int) -> int {
    if x < y { -1 } else if x == y { 0 } else { 1 }
}

/// The order of labs: by state, then owner, title and identifier.
pub open spec fn lab_order(a: ListingEntry, b: ListingEntry) -> int {
    if state_rank(a.state) != state_rank(b.state) {
        sign(state_rank(a.state), state_rank(b.state))
    } else if text_order(a.owner@, b.owner@) != 0 {
        text_order(a.owner@, b.owner@)
    } else if text_order(a.title@, b.title@) != 0 {
        text_order(a.title@, b.title@)
    } else {
        text_order(a.id@, b.id@)
    }
}

/// The order of nodes: by state, then label and identifier.
pub open spec fn node_order(a: ListingEntryConsoleNode, b: ListingEntryConsoleNode) -> int {
    if state_rank(a.state) != state_rank(b.state) {
        sign(state_rank(a.state), state_rank(b.state))
    } else if text_order(a.label@, b.label@) != 0 {
        text_order(a.label@, b.label@)
    } else {
        text_order(a.id@, b.id@)
    }
}

/// Things listed in an order by a key.
pub trait Keyed: Sized {
    /// The order of the keys: negative, zero or positive.
    spec fn key_compare(&self, other: &Self) -> int;

    /// The keys are ordered: the order is total and transitive.
    proof fn key_laws(a: &Self, b: &Self, c: &Self)
        ensures
            a.key_compare(b) <= 0 || b.key_compare(a) <= 0,
            a.key_compare(b) <= 0 && b.key_compare(c) <= 0 ==> a.key_compare(c) <= 0,
    ;

    fn key_le(&self, other: &Self) -> (r: bool)
        ensures
            r == (self.key_compare(other) <= 0),
    ;
}

impl Keyed for ListingEntry {
    open spec fn key_compare(&self, other: &Self) -> int {
        lab_order(*self, *other)
    }

    proof fn key_laws(a: &Self, b: &Self, c: &Self) {
        lemma_text_order(a.owner@, b.owner@);
        lemma_text_order(b.owner@, c.owner@);
        lemma_text_order(a.owner@, c.owner@);
        lemma_text_order(a.title@, b.title@);
        lemma_text_order(b.title@, c.title@);
        lemma_text_order(a.title@, c.title@);
        lemma_text_order(a.id@, b.id@);
        lemma_text_order(b.id@, c.id@);
        lemma_text_order(a.id@, c.id@);
        if text_order(a.owner@, b.owner@) <= 0 && text_order(b.owner@, c.owner@) <= 0 {
            lemma_text_order_trans(a.owner@, b.owner@, c.owner@);
        }
        if text_order(a.title@, b.title@) <= 0 && text_order(b.title@, c.title@) <= 0 {
            lemma_text_order_trans(a.title@, b.title@, c.title@);
        }
        if text_order(a.id@, b.id@) <= 0 && text_order(b.id@, c.id@) <= 0 {
            lemma_text_order_trans(a.id@, b.id@, c.id@);
        }
    }

    fn key_le(&self, other: &Self) -> (r: bool) {
        let (ra, rb) = (rank(self.state), rank(other.state));
        if ra != rb {
            return ra < rb;
        }
        let o = text_order_exec(self.owner.as_str(), other.owner.as_str());
        if o != 0 {
            return o < 0;
        }
        let t = text_order_exec(self.title.as_str(), other.title.as_str());
        if t != 0 {
            return t < 0;
        }
        text_order_exec(self.id.as_str(), other.id.as_str()) <= 0
    }
}

impl Keyed for ListingEntryConsoleNode {
    open spec fn key_compare(&self, other: &Self) -> int {
        node_order(*self, *other)
    }

    proof fn key_laws(a: &Self, b: &Self, c: &Self) {
        lemma_text_order(a.label@, b.label@);
        lemma_text_order(b.label@, c.label@);
        lemma_text_order(a.label@, c.label@);
        lemma_text_order(a.id@, b.id@);
        lemma_text_order(b.id@, c.id@);
        lemma_text_order(a.id@, c.id@);
        if text_order(a.label@, b.label@) <= 0 && text_order(b.label@, c.label@) <= 0 {
            lemma_text_order_trans(a.label@, b.label@, c.label@);
        }
        if text_order(a.id@, b.id@) <= 0 && text_order(b.id@, c.id@) <= 0 {
            lemma_text_order_trans(a.id@, b.id@, c.id@);
        }
    }

    fn key_le(&self, other: &Self) -> (r: bool) {
        let (ra, rb) = (rank(self.state), rank(other.state));
        if ra != rb {
            return ra < rb;
        }
        let l = text_order_exec(self.label.as_str(), other.label.as_str());
        if l != 0 {
            return l < 0;
        }
        text_order_exec(self.id.as_str(), other.id.as_str()) <= 0
    }
}

// ---------------------------------------------------------------------------
// Stable sorting by key
// ---------------------------------------------------------------------------

/// Where `x` goes in a sequence sorted by key: after every item whose key
/// is no greater than its own.
pub open spec fn insert_pos<T: Keyed>(s: Seq<T>, x: T) -> int
    decreases s.len(),
{
    if s.len() == 0 || s.last().key_compare(&x) <= 0 {
        s.len() as int
    } else {
        insert_pos(s.drop_last(), x)
    }
}

/// `s` sorted by key, items of equal keys keeping their order.
pub open spec fn sort_by_key<T: Keyed>(s: Seq<T>) -> Seq<T>
    decreases s.len(),
{
    if s.len() == 0 {
        Seq::empty()
    } else {
        let t = sort_by_key(s.drop_last());
        t.insert(insert_pos(t, s.last()), s.last())
    }
}

pub open spec fn sorted_by_key<T: Keyed>(s: Seq<T>) -> bool {
    forall|i: int, j: int| #![trigger s[i], s[j]] 0 <= i < j < s.len() ==> s[i].key_compare(&s[j]) <= 0
}

proof fn lemma_insert_pos<T: Keyed>(s: Seq<T>, x: T)
    ensures
        0 <= insert_pos(s, x) <= s.len(),
        forall|k: int| insert_pos(s, x) <= k < s.len() ==> !((#[trigger] s[k]).key_compare(&x) <= 0),
        insert_pos(s, x) > 0 ==> s[insert_pos(s, x) - 1].key_compare(&x) <= 0,
    decreases s.len(),
{
    if s.len() > 0 && !(s.last().key_compare(&x) <= 0) {
        lemma_insert_pos(s.drop_last(), x);
        assert forall|k: int| insert_pos(s, x) <= k < s.len() implies !((#[trigger] s[k]).key_compare(&x) <= 0) by {
            if k < s.len() - 1 {
                assert(s.drop_last()[k] == s[k]);
            }
        }
    }
}

/// Sorting by key gives a sequence sorted by key, holding the same items.
pub proof fn law_sort_by_key<T: Keyed>(s: Seq<T>)
    ensures
        sorted_by_key(sort_by_key(s)),
        sort_by_key(s).to_multiset() == s.to_multiset(),
    decreases s.len(),
{
    broadcast use vstd::seq_lib::group_to_multiset_ensures;

    if s.len() > 0 {
        let t = sort_by_key(s.drop_last());
        law_sort_by_key(s.drop_last());
        let x = s.last();
        lemma_insert_pos(t, x);
        let p = insert_pos(t, x);
        let r = t.insert(p, x);
        assert forall|i: int, j: int| #![trigger r[i], r[j]] 0 <= i < j < r.len() implies r[i].key_compare(&r[j]) <= 0 by {
            if j < p {
                assert(r[i] == t[i] && r[j] == t[j]);
            } else if j == p {
                assert(r[i] == t[i]);
                T::key_laws(&t[i], &t[p - 1], &x);
                if i < p - 1 {
                    assert(t[i].key_compare(&t[p - 1]) <= 0);
                }
            } else if i < p {
                assert(r[i] == t[i] && r[j] == t[j - 1]);
                T::key_laws(&t[i], &x, &t[j - 1]);
                T::key_laws(&x, &t[j - 1], &t[j - 1]);
                if i < j - 1 {
                    assert(t[i].key_compare(&t[j - 1]) <= 0);
                }
            } else if i == p {
                assert(r[j] == t[j - 1]);
                T::key_laws(&x, &t[j - 1], &x);
            } else {
                assert(r[i] == t[i - 1] && r[j] == t[j - 1]);
            }
        }
        vstd::seq_lib::to_multiset_insert(t, p, x);
        assert(s =~= s.drop_last().push(x));
    }
}

/// Sorts by key, keeping items of equal keys in their order.
pub fn stable_sort<T: Keyed>(v: Vec<T>) -> (r: Vec<T>)
    ensures
        r@ == sort_by_key(v@),
{
    let ghost orig = v@;
    let mut v = v;
    let mut out: Vec<T> = Vec::new();
    let ghost mut done: int = 0;
    proof {
        assert(orig.take(0) =~= Seq::<T>::empty());
        assert(orig.skip(0) =~= orig);
    }
    while v.len() > 0
        invariant
            0 <= done <= orig.len(),
            v@ == orig.skip(done),
            out@ == sort_by_key(orig.take(done)),
        decreases v@.len(),
    {
        let x = v.remove(0);
        proof {
            assert(x == orig[done]);
            assert(orig.take(done + 1).drop_last() =~= orig.take(done));
            assert(orig.take(done + 1).last() == x);
            assert(v@ =~= orig.skip(done + 1));
        }
        let mut p = out.len();
        proof {
            assert(out@.take(p as int) =~= out@);
        }
        while p > 0 && !out[p - 1].key_le(&x)
            invariant
                p <= out@.len(),
                insert_pos(out@, x) == insert_pos(out@.take(p as int), x),
            decreases p,
        {
            proof {
                assert(out@.take(p as int).drop_last() =~= out@.take(p - 1));
            }
            p = p - 1;
        }
        proof {
            assert(out@.take(p as int).len() == p);
            if p > 0 {
                assert(out@.take(p as int).last() == out@[p - 1]);
            }
        }
        out.insert(p, x);
        proof {
            done = done + 1;
        }
    }
    proof {
        assert(orig.take(done) =~= orig);
    }
    out
}

// ---------------------------------------------------------------------------
// Text
// ---------------------------------------------------------------------------

/// How a state is written (its name).
pub open spec fn state_name(s: State) -> Seq<char> {
    match s {
        State::Booted => "Booted"@,
        State::Started => "Started"@,
        State::Queued => "Queued"@,
        State::Stopped => "Stopped"@,
        State::DefinedOnCore => "DefinedOnCore"@,
        State::DefinedOnCluster => "DefinedOnCluster"@,
    }
}

pub(crate) fn state_name_str(s: State) -> (r: &'static str)
    ensures
        r@ == state_name(s),
{
    match s {
        State::Booted => "Booted",
        State::Started => "Started",
        State::Queued => "Queued",
        State::Stopped => "Stopped",
        State::DefinedOnCore => "DefinedOnCore",
        State::DefinedOnCluster => "DefinedOnCluster",
    }
}

/// The line for a lab without nodes.
pub open spec fn lab_unavailable_line(l: ListingEntry) -> Seq<char> {
    "["@ + l.owner@ + "] /"@ + l.id@ + " :: '"@ + l.title@ + "' (no devices available, lab state is "@
        + state_name(l.state) + ")"@
}

/// The line for a node without console lines.
pub open spec fn node_unavailable_line(l: ListingEntry, n: ListingEntryConsoleNode) -> Seq<char> {
    "["@ + l.owner@ + "] /"@ + l.id@ + "/"@ + n.id@ + " :: '"@ + l.title@ + "'/"@ + n.label@
        + " (no lines available, device state is "@ + state_name(n.state) + ")"@
}

/// The line for console line `i` of a node, whose key is `key`.
pub open spec fn console_line(l: ListingEntry, n: ListingEntryConsoleNode, i: nat, key: Seq<char>) -> Seq<char> {
    "["@ + l.owner@ + "] /"@ + l.id@ + "/"@ + n.id@ + "/"@ + decimal(i) + " :: '"@ + l.title@ + "'/"@
        + n.label@ + "  ("@ + key + ")"@
}

/// The lines for a node: each console line where all are shown, else only
/// the first; a node without console lines is shown only where all are.
pub open spec fn node_text(all: bool, l: ListingEntry, n: ListingEntryConsoleNode) -> Seq<Seq<char>> {
    match n.lines {
        Err(_) => if all { seq![node_unavailable_line(l, n)] } else { Seq::empty() },
        Ok(keys) => {
            let count = if all || keys@.len() == 0 { keys@.len() } else { 1 };
            Seq::new(count, |i: int| console_line(l, n, i as nat, keys@[i]@))
        },
    }
}

/// The lines for a lab: those of its nodes, sorted; a lab without nodes is
/// shown only where all are.
pub open spec fn lab_text(all: bool, l: ListingEntry) -> Seq<Seq<char>> {
    match l.nodes {
        Err(_) => if all { seq![lab_unavailable_line(l)] } else { Seq::empty() },
        Ok(nodes) => sort_by_key(nodes@).map_values(|n: ListingEntryConsoleNode| node_text(all, l, n)).flatten(),
    }
}

/// The lines of a listing: those of its labs, sorted.
pub open spec fn listing_text(all: bool, labs: Seq<ListingEntry>) -> Seq<Seq<char>> {
    sort_by_key(labs).map_values(|l: ListingEntry| lab_text(all, l)).flatten()
}

pub open spec fn texts(v: Seq<String>) -> Seq<Seq<char>> {
    v.map_values(|s: String| s@)
}

fn push_line(out: &mut Vec<String>, line: String)
    ensures
        texts(final(out)@) == texts(old(out)@).push(line@),
{
    let ghost before = out@;
    out.push(line);
    proof {
        assert(texts(out@) =~= texts(before).push(line@));
    }
}

fn lab_unavailable(l: &ListingEntry) -> (r: String)
    ensures
        r@ == lab_unavailable_line(*l),
{
    let mut s = String::new();
    s.append("[");
    s.append(l.owner.as_str());
    s.append("] /");
    s.append(l.id.as_str());
    s.append(" :: '");
    s.append(l.title.as_str());
    s.append("' (no devices available, lab state is ");
    s.append(state_name_str(l.state));
    s.append(")");
    proof {
        assert(s@ =~= lab_unavailable_line(*l));
    }
    s
}

fn node_unavailable(l: &ListingEntry, n: &ListingEntryConsoleNode) -> (r: String)
    ensures
        r@ == node_unavailable_line(*l, *n),
{
    let mut s = String::new();
    s.append("[");
    s.append(l.owner.as_str());
    s.append("] /");
    s.append(l.id.as_str());
    s.append("/");
    s.append(n.id.as_str());
    s.append(" :: '");
    s.append(l.title.as_str());
    s.append("'/");
    s.append(n.label.as_str());
    s.append(" (no lines available, device state is ");
    s.append(state_name_str(n.state));
    s.append(")");
    proof {
        assert(s@ =~= node_unavailable_line(*l, *n));
    }
    s
}

fn console_line_text(l: &ListingEntry, n: &ListingEntryConsoleNode, i: usize, key: &str) -> (r: String)
    ensures
        r@ == console_line(*l, *n, i as nat, key@),
{
    let num = decimal_string(i as u64);
    let mut s = String::new();
    s.append("[");
    s.append(l.owner.as_str());
    s.append("] /");
    s.append(l.id.as_str());
    s.append("/");
    s.append(n.id.as_str());
    s.append("/");
    s.append(num.as_str());
    s.append(" :: '");
    s.append(l.title.as_str());
    s.append("'/");
    s.append(n.label.as_str());
    s.append("  (");
    s.append(key);
    s.append(")");
    proof {
        assert(s@ =~= console_line(*l, *n, i as nat, key@));
    }
    s
}

fn node_lines(all: bool, l: &ListingEntry, n: &ListingEntryConsoleNode, out: &mut Vec<String>)
    ensures
        texts(final(out)@) == texts(old(out)@) + node_text(all, *l, *n),
{
    match &n.lines {
        Err(_) => {
            if all {
                push_line(out, node_unavailable(l, n));
                proof {
                    assert(texts(old(out)@).push(node_unavailable_line(*l, *n)) =~= texts(old(out)@) + node_text(
                        all,
                        *l,
                        *n,
                    ));
                }
            } else {
                proof {
                    assert(texts(old(out)@) + node_text(all, *l, *n) =~= texts(old(out)@));
                }
            }
        },
        Ok(keys) => {
            let count = if all || keys.len() == 0 { keys.len() } else { 1 };
            let ghost text = node_text(all, *l, *n);
            let mut i: usize = 0;
            while i < count
                invariant
                    count <= keys@.len(),
                    count == text.len(),
                    n.lines == Ok::<Vec<String>, String>(*keys),
                    i <= count,
                    text == node_text(all, *l, *n),
                    texts(out@) == texts(old(out)@) + text.take(i as int),
                decreases count - i,
            {
                let line = console_line_text(l, n, i, keys[i].as_str());
                push_line(out, line);
                proof {
                    assert(text[i as int] == console_line(*l, *n, i as nat, keys@[i as int]@));
                    assert(text.take(i + 1) =~= text.take(i as int).push(text[i as int]));
                }
                i = i + 1;
            }
            proof {
                assert(text.take(count as int) =~= text);
            }
        },
    }
}

fn lab_lines(all: bool, l: ListingEntry, out: &mut Vec<String>)
    ensures
        texts(final(out)@) == texts(old(out)@) + lab_text(all, l),
{
    let ghost whole = l;
    let ListingEntry { state, title, id, owner, nodes } = l;
    let head = ListingEntry { state, title, id, owner, nodes: Err(String::new()) };
    match nodes {
        Err(_) => {
            if all {
                let line = lab_unavailable(&head);
                proof {
                    assert(lab_unavailable_line(head) == lab_unavailable_line(whole));
                }
                push_line(out, line);
                proof {
                    assert(texts(old(out)@).push(lab_unavailable_line(whole)) =~= texts(old(out)@) + lab_text(
                        all,
                        whole,
                    ));
                }
            } else {
                proof {
                    assert(texts(old(out)@) + lab_text(all, whole) =~= texts(old(out)@));
                }
            }
        },
        Ok(ns) => {
            let ghost unsorted = ns@;
            let sorted = stable_sort(ns);
            let ghost per = sorted@.map_values(|n: ListingEntryConsoleNode| node_text(all, whole, n));
            let mut i: usize = 0;
            while i < sorted.len()
                invariant
                    i <= sorted@.len(),
                    sorted@ == sort_by_key(unsorted),
                    whole.nodes == Ok::<Vec<ListingEntryConsoleNode>, String>(
                        whole.nodes->Ok_0,
                    ),
                    whole.nodes->Ok_0@ == unsorted,
                    per == sorted@.map_values(|n: ListingEntryConsoleNode| node_text(all, whole, n)),
                    head.owner == whole.owner,
                    head.id == whole.id,
                    head.title == whole.title,
                    head.state == whole.state,
                    texts(out@) == texts(old(out)@) + per.take(i as int).flatten(),
                decreases sorted@.len() - i,
            {
                node_lines(all, &head, &sorted[i], out);
                proof {
                    assert(node_text(all, head, sorted@[i as int]) == node_text(all, whole, sorted@[i as int]));
                    assert(per.take(i + 1) =~= per.take(i as int).push(per[i as int]));
                    per.take(i as int).lemma_flatten_push(per[i as int]);
                }
                i = i + 1;
            }
            proof {
                assert(per.take(sorted@.len() as int) =~= per);
            }
        },
    }
}

impl crate::listing::SubCmdList {
    /// The lines that list the labs: labs sorted by state, owner, title and
    /// identifier; their nodes by state, label and identifier; one line for
    /// each console line of a node, or only the first unless all are shown;
    /// labs and nodes without lines only where all are shown.
    pub fn list_data(&self, lab_entries: Vec<ListingEntry>) -> (r: Vec<String>)
        ensures
            texts(r@) == listing_text(self.all, lab_entries@),
    {
        let ghost unsorted = lab_entries@;
        let mut sorted = stable_sort(lab_entries);
        let ghost sorted_view = sorted@;
        let total = sorted.len();
        let ghost per = sorted_view.map_values(|l: ListingEntry| lab_text(self.all, l));
        let mut out: Vec<String> = Vec::new();
        let mut i: usize = 0;
        proof {
            assert(texts(out@) =~= per.take(0).flatten());
            assert(sorted_view.skip(0) =~= sorted_view);
        }
        while sorted.len() > 0
            invariant
                i + sorted@.len() == sorted_view.len(),
                sorted_view.len() == total,
                sorted@ == sorted_view.skip(i as int),
                sorted_view == sort_by_key(unsorted),
                per == sorted_view.map_values(|l: ListingEntry| lab_text(self.all, l)),
                texts(out@) == per.take(i as int).flatten(),
            decreases sorted@.len(),
        {
            let l = sorted.remove(0);
            proof {
                assert(l == sorted_view[i as int]);
                assert(sorted@ =~= sorted_view.skip(i + 1));
            }
            lab_lines(self.all, l, &mut out);
            proof {
                assert(per.take(i + 1) =~= per.take(i as int).push(per[i as int]));
                per.take(i as int).lemma_flatten_push(per[i as int]);
            }
            i = i + 1;
        }
        proof {
            assert(per.take(i as int) =~= per);
        }
        out
    }
}

} // verus!
