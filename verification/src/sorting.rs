use vstd::prelude::*;

use crate::ids::ChannelKey;
use crate::presence_plan::unique_clients;
use crate::store::{channel_names, ChannelName};
use crate::protocol::{members_view, MemberView, PresenceMember};
use crate::text::{
    lemma_text_lt_asymmetric, lemma_text_lt_total, lemma_text_lt_transitive, same_text, text_less,
    text_lt,
};

verus! {

/// Members in strictly increasing order of client identifier.
pub open spec fn sorted_by_client(members: Seq<MemberView>) -> bool {
    forall|i: int, j: int|
        0 <= i < j < members.len() ==> text_lt(
            (#[trigger] members[i]).client_id,
            (#[trigger] members[j]).client_id,
        )
}

/// Both sequences hold the same members.
pub open spec fn same_members(a: Seq<MemberView>, b: Seq<MemberView>) -> bool {
    &&& a.len() == b.len()
    &&& forall|m: MemberView| a.contains(m) <==> b.contains(m)
}

/// Items in strictly increasing order of a text key.
pub open spec fn strictly_sorted<T>(s: Seq<T>, key: spec_fn(T) -> Seq<char>) -> bool {
    forall|i: int, j: int| 0 <= i < j < s.len() ==> text_lt(key(#[trigger] s[i]), key(#[trigger] s[j]))
}

/// Two sequences sorted strictly by the same key, with the same items, are equal.
pub proof fn lemma_strictly_sorted_unique<T>(a: Seq<T>, b: Seq<T>, key: spec_fn(T) -> Seq<char>)
    requires
        strictly_sorted(a, key),
        strictly_sorted(b, key),
        forall|x: T| a.contains(x) <==> b.contains(x),
    ensures
        a == b,
    decreases a.len(),
{
    if a.len() == 0 {
        if b.len() > 0 {
            assert(b.contains(b[0]));
        }
        assert(a =~= b);
    } else {
        assert(a.contains(a[0]));
        if b.len() == 0 {
            assert(false);
        }
        let j = choose|j: int| 0 <= j < b.len() && b[j] == a[0];
        assert(b.contains(b[0]));
        let i = choose|i: int| 0 <= i < a.len() && a[i] == b[0];
        if i > 0 && j > 0 {
            assert(text_lt(key(a[0]), key(a[i])));
            assert(text_lt(key(b[0]), key(b[j])));
            lemma_text_lt_asymmetric(key(a[0]), key(b[0]));
        } else if i == 0 {
            assert(a[0] == b[0]);
        } else {
            assert(a[0] == b[0]);
        }
        let ta = a.drop_first();
        let tb = b.drop_first();
        assert forall|x: T| ta.contains(x) implies tb.contains(x) by {
            let k = choose|k: int| 0 <= k < ta.len() && ta[k] == x;
            assert(a[k + 1] == x);
            assert(a.contains(x));
            assert(b.contains(x));
            let m = choose|m: int| 0 <= m < b.len() && b[m] == x;
            if m == 0 {
                assert(text_lt(key(a[0]), key(a[k + 1])));
                lemma_text_lt_asymmetric(key(x), key(x));
            } else {
                assert(tb[m - 1] == x);
            }
        }
        assert forall|x: T| tb.contains(x) implies ta.contains(x) by {
            let k = choose|k: int| 0 <= k < tb.len() && tb[k] == x;
            assert(b[k + 1] == x);
            assert(b.contains(x));
            assert(a.contains(x));
            let m = choose|m: int| 0 <= m < a.len() && a[m] == x;
            if m == 0 {
                assert(text_lt(key(b[0]), key(b[k + 1])));
                lemma_text_lt_asymmetric(key(x), key(x));
            } else {
                assert(ta[m - 1] == x);
            }
        }
        assert(strictly_sorted(ta, key)) by {
            assert forall|p: int, q: int| 0 <= p < q < ta.len() implies text_lt(
                key(#[trigger] ta[p]),
                key(#[trigger] ta[q]),
            ) by {
                assert(ta[p] == a[p + 1]);
                assert(ta[q] == a[q + 1]);
            }
        }
        assert(strictly_sorted(tb, key)) by {
            assert forall|p: int, q: int| 0 <= p < q < tb.len() implies text_lt(
                key(#[trigger] tb[p]),
                key(#[trigger] tb[q]),
            ) by {
                assert(tb[p] == b[p + 1]);
                assert(tb[q] == b[q + 1]);
            }
        }
        lemma_strictly_sorted_unique(ta, tb, key);
        assert(a =~= seq![a[0]] + ta);
        assert(b =~= seq![b[0]] + tb);
    }
}

/// The client identifier of a member.
pub open spec fn client_key() -> spec_fn(MemberView) -> Seq<char> {
    |m: MemberView| m.client_id
}

/// The members in order of client identifier.
pub open spec fn by_client(members: Seq<MemberView>) -> Seq<MemberView> {
    choose|s: Seq<MemberView>| sorted_by_client(s) && same_members(s, members)
}

/// A sorted arrangement of some members is the one `by_client` names.
pub proof fn lemma_by_client(r: Seq<MemberView>, members: Seq<MemberView>)
    requires
        sorted_by_client(r),
        same_members(r, members),
    ensures
        r == by_client(members),
{
    let c = by_client(members);
    assert(sorted_by_client(c) && same_members(c, members));
    assert(strictly_sorted(r, client_key()));
    assert(strictly_sorted(c, client_key()));
    lemma_strictly_sorted_unique(r, c, client_key());
}

/// Orders members by client identifier (the order of `str::cmp`).
pub fn sort_by_client(members: Vec<PresenceMember>) -> (r: Vec<PresenceMember>)
    requires
        unique_clients(members_view(members@)),
    ensures
        sorted_by_client(members_view(r@)),
        same_members(members_view(r@), members_view(members@)),
{
    let ghost input = members_view(members@);
    let mut rest = members;
    let mut sorted: Vec<PresenceMember> = Vec::new();
    let ghost taken: Seq<MemberView> = Seq::empty();
    while rest.len() > 0
        invariant
            input.len() == taken.len() + members_view(rest@).len(),
            taken + members_view(rest@) == input,
            sorted_by_client(members_view(sorted@)),
            members_view(sorted@).len() == taken.len(),
            forall|m: MemberView| members_view(sorted@).contains(m) <==> taken.contains(m),
            unique_clients(input),
        decreases rest@.len(),
    {
        let ghost before = members_view(sorted@);
        let ghost rest_view = members_view(rest@);
        let m = rest.remove(0);
        let ghost mv = m@;
        proof {
            assert(rest_view[0] == mv);
            assert(members_view(rest@) =~= rest_view.drop_first());
            assert(input[taken.len() as int] == mv);
            assert forall|k: int| 0 <= k < before.len() implies before[k].client_id != mv.client_id by {
                assert(taken.contains(before[k]));
                let t = choose|t: int| 0 <= t < taken.len() && taken[t] == before[k];
                assert(input[t] == taken[t]);
            }
        }
        let mut p: usize = 0;
        while p < sorted.len() && !text_less(m.client_id.as_str(), sorted[p].client_id.as_str())
            invariant
                p <= sorted@.len(),
                before == members_view(sorted@),
                forall|k: int| 0 <= k < p ==> text_lt((#[trigger] before[k]).client_id, mv.client_id),
                forall|k: int| 0 <= k < before.len() ==> (#[trigger] before[k]).client_id != mv.client_id,
                mv == m@,
            decreases sorted@.len() - p,
        {
            proof {
                lemma_text_lt_total(mv.client_id, before[p as int].client_id);
            }
            p = p + 1;
        }
        proof {
            if p < before.len() {
                assert(text_lt(mv.client_id, before[p as int].client_id));
                assert forall|k: int| p <= k < before.len() implies text_lt(
                    mv.client_id,
                    (#[trigger] before[k]).client_id,
                ) by {
                    if k > p {
                        lemma_text_lt_transitive(
                            mv.client_id,
                            before[p as int].client_id,
                            before[k].client_id,
                        );
                    }
                }
            }
        }
        sorted.insert(p, m);
        proof {
            let after = members_view(sorted@);
            assert(after =~= before.insert(p as int, mv));
            before.insert_ensures(p as int, mv);
            assert forall|i: int, j: int| 0 <= i < j < after.len() implies text_lt(
                (#[trigger] after[i]).client_id,
                (#[trigger] after[j]).client_id,
            ) by {
                if j < p {
                } else if j == p {
                } else if i < p {
                    lemma_text_lt_transitive(after[i].client_id, mv.client_id, after[j].client_id);
                } else if i == p {
                } else {
                }
            }
            assert(taken.push(mv) + members_view(rest@) =~= input);
            let grown = taken.push(mv);
            assert forall|x: MemberView| after.contains(x) implies grown.contains(x) by {
                let k = choose|k: int| 0 <= k < after.len() && after[k] == x;
                if k == p {
                    assert(grown[taken.len() as int] == x);
                } else {
                    let k0 = if k < p { k } else { k - 1 };
                    assert(before[k0] == x);
                    assert(before.contains(x));
                    assert(taken.contains(x));
                    let t = choose|t: int| 0 <= t < taken.len() && taken[t] == x;
                    assert(grown[t] == x);
                }
            }
            assert forall|x: MemberView| grown.contains(x) implies after.contains(x) by {
                let t = choose|t: int| 0 <= t < grown.len() && grown[t] == x;
                if t == taken.len() {
                    assert(after[p as int] == x);
                } else {
                    assert(taken[t] == x);
                    assert(taken.contains(x));
                    assert(before.contains(x));
                    let k = choose|k: int| 0 <= k < before.len() && before[k] == x;
                    if k < p {
                        assert(after[k] == x);
                    } else {
                        assert(after[k + 1] == x);
                    }
                }
            }
            taken = taken.push(mv);
        }
    }
    proof {
        assert(taken =~= input);
    }
    sorted
}


/// The name of a channel, the key the channels of a connection are ordered by.
pub open spec fn name_key() -> spec_fn(ChannelName) -> Seq<char> {
    |c: ChannelName| c.1
}

/// Orders channel keys by channel name (the order of `str::cmp`).
pub fn sort_by_name(keys: Vec<ChannelKey>) -> (r: Vec<ChannelKey>)
    requires
        forall|i: int, j: int|
            0 <= i < keys@.len() && 0 <= j < keys@.len() && i != j ==> (#[trigger] keys@[i]).channel@
                != (#[trigger] keys@[j]).channel@,
    ensures
        strictly_sorted(channel_names(r@), name_key()),
        r@.len() == keys@.len(),
        forall|x: ChannelName| channel_names(r@).contains(x) <==> channel_names(keys@).contains(x),
{
    let ghost input = channel_names(keys@);
    let mut rest = keys;
    let mut sorted: Vec<ChannelKey> = Vec::new();
    let ghost taken: Seq<ChannelName> = Seq::empty();
    while rest.len() > 0
        invariant
            input.len() == taken.len() + channel_names(rest@).len(),
            taken + channel_names(rest@) == input,
            strictly_sorted(channel_names(sorted@), name_key()),
            channel_names(sorted@).len() == taken.len(),
            forall|x: ChannelName| channel_names(sorted@).contains(x) <==> taken.contains(x),
            forall|i: int, j: int|
                0 <= i < input.len() && 0 <= j < input.len() && i != j ==> (#[trigger] input[i]).1
                    != (#[trigger] input[j]).1,
        decreases rest@.len(),
    {
        let ghost before = channel_names(sorted@);
        let ghost rest_view = channel_names(rest@);
        let k = rest.remove(0);
        let ghost kv = k@;
        proof {
            assert(rest_view[0] == kv);
            assert(channel_names(rest@) =~= rest_view.drop_first());
            assert(input[taken.len() as int] == kv);
            assert forall|p: int| 0 <= p < before.len() implies before[p].1 != kv.1 by {
                assert(before.contains(before[p]));
                assert(taken.contains(before[p]));
                let t = choose|t: int| 0 <= t < taken.len() && taken[t] == before[p];
                assert(input[t] == taken[t]);
            }
        }
        let mut p: usize = 0;
        while p < sorted.len() && !text_less(k.channel.as_str(), sorted[p].channel.as_str())
            invariant
                p <= sorted@.len(),
                before == channel_names(sorted@),
                forall|q: int| 0 <= q < p ==> text_lt((#[trigger] before[q]).1, kv.1),
                forall|q: int| 0 <= q < before.len() ==> (#[trigger] before[q]).1 != kv.1,
                kv == k@,
            decreases sorted@.len() - p,
        {
            proof {
                lemma_text_lt_total(kv.1, before[p as int].1);
            }
            p = p + 1;
        }
        proof {
            if p < before.len() {
                assert(text_lt(kv.1, before[p as int].1));
                assert forall|q: int| p <= q < before.len() implies text_lt(kv.1, (#[trigger] before[q]).1) by {
                    if q > p {
                        assert(text_lt(name_key()(before[p as int]), name_key()(before[q])));
                        lemma_text_lt_transitive(kv.1, before[p as int].1, before[q].1);
                    }
                }
            }
        }
        sorted.insert(p, k);
        proof {
            let after = channel_names(sorted@);
            assert(after =~= before.insert(p as int, kv));
            assert forall|i: int, j: int| 0 <= i < j < after.len() implies text_lt(
                name_key()(#[trigger] after[i]),
                name_key()(#[trigger] after[j]),
            ) by {
                if j < p {
                    assert(text_lt(name_key()(before[i]), name_key()(before[j])));
                } else if j == p {
                } else if i < p {
                    assert(text_lt(name_key()(before[i]), name_key()(before[j - 1])));
                    lemma_text_lt_transitive(after[i].1, kv.1, after[j].1);
                } else if i == p {
                } else {
                    assert(text_lt(name_key()(before[i - 1]), name_key()(before[j - 1])));
                }
            }
            assert(taken.push(kv) + channel_names(rest@) =~= input);
            let grown = taken.push(kv);
            assert forall|x: ChannelName| after.contains(x) implies grown.contains(x) by {
                let q = choose|q: int| 0 <= q < after.len() && after[q] == x;
                if q == p {
                    assert(grown[taken.len() as int] == x);
                } else {
                    let q0 = if q < p { q } else { q - 1 };
                    assert(before[q0] == x);
                    assert(before.contains(x));
                    assert(taken.contains(x));
                    let t = choose|t: int| 0 <= t < taken.len() && taken[t] == x;
                    assert(grown[t] == x);
                }
            }
            assert forall|x: ChannelName| grown.contains(x) implies after.contains(x) by {
                let t = choose|t: int| 0 <= t < grown.len() && grown[t] == x;
                if t == taken.len() {
                    assert(after[p as int] == x);
                } else {
                    assert(taken[t] == x);
                    assert(taken.contains(x));
                    assert(before.contains(x));
                    let q = choose|q: int| 0 <= q < before.len() && before[q] == x;
                    if q < p {
                        assert(after[q] == x);
                    } else {
                        assert(after[q + 1] == x);
                    }
                }
            }
            taken = taken.push(kv);
        }
    }
    proof {
        assert(taken =~= input);
    }
    sorted
}

/// Texts in order, equal ones in any order.
pub open spec fn texts_sorted(texts: Seq<Seq<char>>) -> bool {
    forall|i: int, j: int| 0 <= i < j < texts.len() ==> !text_lt(#[trigger] texts[j], #[trigger] texts[i])
}

/// The texts of strings.
pub open spec fn texts_view(strings: Seq<String>) -> Seq<Seq<char>> {
    strings.map_values(|s: String| s@)
}

/// Orders texts as `sort_unstable` on strings does.
pub fn sort_texts(texts: Vec<String>) -> (r: Vec<String>)
    ensures
        texts_sorted(texts_view(r@)),
        r@.to_multiset() == texts@.to_multiset(),
{
    broadcast use vstd::seq_lib::group_to_multiset_ensures;

    let mut rest = texts;
    let mut sorted: Vec<String> = Vec::new();
    proof {
        assert(rest@ =~= texts@);
    }
    while rest.len() > 0
        invariant
            texts_sorted(texts_view(sorted@)),
            sorted@.to_multiset().add(rest@.to_multiset()) == texts@.to_multiset(),
        decreases rest@.len(),
    {
        let ghost before = sorted@;
        let ghost keys = texts_view(sorted@);
        let ghost rest_before = rest@;
        let m = rest.remove(0);
        let mut p: usize = 0;
        while p < sorted.len() && !text_less(m.as_str(), sorted[p].as_str())
            invariant
                p <= sorted@.len(),
                before == sorted@,
                keys == texts_view(before),
                forall|k: int| 0 <= k < p ==> !text_lt(m@, #[trigger] keys[k]),
            decreases sorted@.len() - p,
        {
            p = p + 1;
        }
        proof {
            if p < before.len() {
                assert(text_lt(m@, keys[p as int]));
                assert forall|k: int| p <= k < keys.len() implies text_lt(m@, #[trigger] keys[k]) by {
                    if k > p {
                        assert(!text_lt(keys[k], keys[p as int]));
                        lemma_text_lt_total(keys[k], keys[p as int]);
                        if keys[k] != keys[p as int] {
                            lemma_text_lt_transitive(m@, keys[p as int], keys[k]);
                        }
                    }
                }
            }
        }
        let ghost mv = m;
        sorted.insert(p, m);
        proof {
            let after = texts_view(sorted@);
            assert(sorted@ =~= before.insert(p as int, mv));
            assert(after =~= keys.insert(p as int, mv@));
            assert forall|i: int, j: int| 0 <= i < j < after.len() implies !text_lt(
                #[trigger] after[j],
                #[trigger] after[i],
            ) by {
                if j < p {
                } else if j == p {
                } else if i < p {
                    assert(!text_lt(mv@, keys[i]));
                    assert(text_lt(mv@, keys[j - 1]));
                    if text_lt(after[j], after[i]) {
                        lemma_text_lt_transitive(mv@, after[j], after[i]);
                    }
                } else if i == p {
                    assert(text_lt(mv@, keys[j - 1]));
                    lemma_text_lt_asymmetric(mv@, keys[j - 1]);
                } else {
                }
            }
            assert(rest_before =~= rest@.insert(0, mv));
            vstd::seq_lib::to_multiset_insert(rest@, 0, mv);
            vstd::seq_lib::to_multiset_insert(before, p as int, mv);
            assert(sorted@.to_multiset().add(rest@.to_multiset()) =~= before.to_multiset().add(
                rest_before.to_multiset(),
            ));
        }
    }
    sorted
}
/// Order of pairs of texts: by the first, then by the second.
pub open spec fn pair_lt(a: (Seq<char>, Seq<char>), b: (Seq<char>, Seq<char>)) -> bool {
    text_lt(a.0, b.0) || (a.0 == b.0 && text_lt(a.1, b.1))
}

/// The order of pairs is a strict total order.
pub proof fn lemma_pair_lt_order(
    a: (Seq<char>, Seq<char>),
    b: (Seq<char>, Seq<char>),
    c: (Seq<char>, Seq<char>),
)
    ensures
        !pair_lt(a, a),
        !(pair_lt(a, b) && pair_lt(b, a)),
        a != b ==> pair_lt(a, b) || pair_lt(b, a),
        pair_lt(a, b) && pair_lt(b, c) ==> pair_lt(a, c),
{
    lemma_text_lt_asymmetric(a.0, b.0);
    lemma_text_lt_asymmetric(a.1, b.1);
    lemma_text_lt_total(a.0, b.0);
    lemma_text_lt_total(a.1, b.1);
    if text_lt(a.0, b.0) && text_lt(b.0, c.0) {
        lemma_text_lt_transitive(a.0, b.0, c.0);
    }
    if text_lt(a.1, b.1) && text_lt(b.1, c.1) {
        lemma_text_lt_transitive(a.1, b.1, c.1);
    }
}

/// The connection and client identifiers of a member.
pub open spec fn connection_client(m: MemberView) -> (Seq<char>, Seq<char>) {
    (m.connection_id, m.client_id)
}

/// Members in order of connection, then client identifier; equal ones in any
/// order.
pub open spec fn members_by_connection(members: Seq<MemberView>) -> bool {
    forall|i: int, j: int|
        0 <= i < j < members.len() ==> !pair_lt(
            connection_client(#[trigger] members[j]),
            connection_client(#[trigger] members[i]),
        )
}

/// Whether `a` comes before `b` in order of connection, then client.
fn member_less(a: &PresenceMember, b: &PresenceMember) -> (r: bool)
    ensures
        r == pair_lt(connection_client(a@), connection_client(b@)),
{
    let a_conn = a.connection_id.as_str();
    let b_conn = b.connection_id.as_str();
    if text_less(a_conn, b_conn) {
        true
    } else if same_text(a_conn, b_conn) {
        text_less(a.client_id.as_str(), b.client_id.as_str())
    } else {
        false
    }
}

/// Orders members by connection identifier, then client identifier.
pub fn sort_by_connection(members: Vec<PresenceMember>) -> (r: Vec<PresenceMember>)
    ensures
        members_by_connection(members_view(r@)),
        r@.to_multiset() == members@.to_multiset(),
{
    broadcast use vstd::seq_lib::group_to_multiset_ensures;

    let mut rest = members;
    let mut sorted: Vec<PresenceMember> = Vec::new();
    proof {
        assert(rest@ =~= members@);
    }
    while rest.len() > 0
        invariant
            members_by_connection(members_view(sorted@)),
            sorted@.to_multiset().add(rest@.to_multiset()) == members@.to_multiset(),
        decreases rest@.len(),
    {
        let ghost before = sorted@;
        let ghost keys = members_view(sorted@).map_values(|v: MemberView| connection_client(v));
        let ghost rest_before = rest@;
        let m = rest.remove(0);
        let ghost mk = connection_client(m@);
        let mut p: usize = 0;
        while p < sorted.len() && !member_less(&m, &sorted[p])
            invariant
                p <= sorted@.len(),
                before == sorted@,
                keys == members_view(before).map_values(|v: MemberView| connection_client(v)),
                mk == connection_client(m@),
                forall|k: int| 0 <= k < p ==> !pair_lt(mk, #[trigger] keys[k]),
            decreases sorted@.len() - p,
        {
            assert(keys[p as int] == connection_client(sorted@[p as int]@));
            p = p + 1;
        }
        proof {
            assert forall|i: int, j: int| 0 <= i < j < keys.len() implies !pair_lt(
                #[trigger] keys[j],
                #[trigger] keys[i],
            ) by {
                assert(keys[j] == connection_client(members_view(before)[j]));
                assert(keys[i] == connection_client(members_view(before)[i]));
            }
            if p < before.len() {
                assert(keys[p as int] == connection_client(before[p as int]@));
                assert(pair_lt(mk, keys[p as int]));
                assert forall|k: int| p <= k < keys.len() implies pair_lt(mk, #[trigger] keys[k]) by {
                    if k > p {
                        assert(!pair_lt(keys[k], keys[p as int]));
                        lemma_pair_lt_order(mk, keys[p as int], keys[k]);
                        lemma_pair_lt_order(keys[k], keys[p as int], mk);
                    }
                }
            }
        }
        let ghost mv = m;
        sorted.insert(p, m);
        proof {
            let after = members_view(sorted@).map_values(|v: MemberView| connection_client(v));
            assert(sorted@ =~= before.insert(p as int, mv));
            assert(after =~= keys.insert(p as int, mk));
            assert forall|i: int, j: int| 0 <= i < j < after.len() implies !pair_lt(
                #[trigger] after[j],
                #[trigger] after[i],
            ) by {
                if j < p {
                } else if j == p {
                } else if i < p {
                    assert(!pair_lt(mk, keys[i]));
                    assert(pair_lt(mk, keys[j - 1]));
                    lemma_pair_lt_order(mk, after[j], after[i]);
                } else if i == p {
                    assert(pair_lt(mk, keys[j - 1]));
                    lemma_pair_lt_order(mk, keys[j - 1], mk);
                } else {
                }
            }
            let sv = members_view(sorted@);
            assert forall|i: int, j: int| 0 <= i < j < sv.len() implies !pair_lt(
                connection_client(#[trigger] sv[j]),
                connection_client(#[trigger] sv[i]),
            ) by {
                assert(after[j] == connection_client(sv[j]));
                assert(after[i] == connection_client(sv[i]));
            }
            assert(rest_before =~= rest@.insert(0, mv));
            vstd::seq_lib::to_multiset_insert(rest@, 0, mv);
            vstd::seq_lib::to_multiset_insert(before, p as int, mv);
            assert(sorted@.to_multiset().add(rest@.to_multiset()) =~= before.to_multiset().add(
                rest_before.to_multiset(),
            ));
        }
    }
    sorted
}
} // verus!
