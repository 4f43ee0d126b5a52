//! The order in which connection records are shown: by name, without
//! regard to case.

use vstd::prelude::*;
use vstd::utf8::encode_utf8;
use crate::config::server_connection::{connections_view, ServerConnection, ServerConnectionView};
use crate::text::{
    compare_text, lemma_lex_flip, lemma_lex_transitive, lemma_text_order_equal, text_order,
};

verus! {

/// A text with every letter turned into its lower case, as Unicode has it.
pub uninterp spec fn lowercase_of(text: Seq<char>) -> Seq<char>;

/// `str::to_lowercase`.
#[verifier::external_body]
fn to_lowercase(text: &str) -> (r: String)
    ensures
        r@ == lowercase_of(text@),
{
    text.to_lowercase()
}

/// The order of two names for display: that of their lower-case forms.
pub open spec fn name_order(a: Seq<char>, b: Seq<char>) -> int {
    text_order(lowercase_of(a), lowercase_of(b))
}

/// Orders two records by their names: -1 where the first comes first, 1
/// where the second does, 0 where they are of equal rank.
pub fn name_rank(a: &ServerConnection, b: &ServerConnection) -> (r: i8)
    ensures
        r == name_order(a@.name, b@.name),
{
    let x = to_lowercase(a.name.as_str());
    let y = to_lowercase(b.name.as_str());
    compare_text(x.as_str(), y.as_str())
}

/// `places` says where each record of `after` stood in `before`, and shows
/// `after` to be `before` sorted by name with records of equal rank left in
/// their order.
pub open spec fn is_stable_order(
    before: Seq<ServerConnectionView>,
    after: Seq<ServerConnectionView>,
    places: Seq<int>,
) -> bool {
    &&& places.len() == before.len()
    &&& after.len() == before.len()
    &&& forall|i: int|
        0 <= i < after.len() ==> 0 <= #[trigger] places[i] < before.len() && after[i]
            == before[places[i]]
    &&& forall|i: int, j: int|
        #![trigger places[i], places[j]]
        0 <= i < j < after.len() ==> places[i] != places[j] && (name_order(
            after[i].name,
            after[j].name,
        ) < 0 || (name_order(after[i].name, after[j].name) == 0 && places[i] < places[j]))
}

/// `after` is `before` sorted by name, records of equal rank left in their
/// order.
pub open spec fn sorted_stably(
    before: Seq<ServerConnectionView>,
    after: Seq<ServerConnectionView>,
) -> bool {
    exists|places: Seq<int>| is_stable_order(before, after, places)
}

/// What holds while the records are sorted: the first `done` records are
/// in their final order among themselves, and the others stand where they
/// stood.
pub open spec fn sorted_so_far(
    before: Seq<ServerConnectionView>,
    now: Seq<ServerConnectionView>,
    places: Seq<int>,
    done: int,
) -> bool {
    &&& places.len() == before.len()
    &&& now.len() == before.len()
    &&& 0 <= done <= now.len()
    &&& forall|i: int|
        0 <= i < now.len() ==> 0 <= #[trigger] places[i] < before.len() && now[i]
            == before[places[i]]
    &&& forall|i: int, j: int|
        #![trigger places[i], places[j]]
        0 <= i < j < now.len() ==> places[i] != places[j]
    &&& forall|i: int, j: int|
        #![trigger now[i], now[j]]
        0 <= i < j < done ==> name_order(now[i].name, now[j].name) < 0 || (name_order(
            now[i].name,
            now[j].name,
        ) == 0 && places[i] < places[j])
    &&& forall|i: int| 0 <= i < done ==> #[trigger] places[i] < done
    &&& forall|i: int| done <= i < now.len() ==> #[trigger] places[i] == i
}

/// The order of two names turns round when the names are swapped.
pub proof fn lemma_name_order_flip(a: Seq<char>, b: Seq<char>)
    ensures
        name_order(b, a) == -name_order(a, b),
{
    lemma_lex_flip(encode_utf8(lowercase_of(a)), encode_utf8(lowercase_of(b)));
}

/// The order of names is transitive, and strict where one of the two steps
/// is.
pub proof fn lemma_name_order_transitive(a: Seq<char>, b: Seq<char>, c: Seq<char>)
    requires
        name_order(a, b) <= 0,
        name_order(b, c) <= 0,
    ensures
        name_order(a, c) <= 0,
        name_order(a, b) < 0 || name_order(b, c) < 0 ==> name_order(a, c) < 0,
{
    lemma_lex_transitive(
        encode_utf8(lowercase_of(a)),
        encode_utf8(lowercase_of(b)),
        encode_utf8(lowercase_of(c)),
    );
}

/// Moving the record behind the sorted ones to its place among them gives
/// one more sorted record.
pub proof fn lemma_moved(
    before: Seq<ServerConnectionView>,
    now: Seq<ServerConnectionView>,
    places: Seq<int>,
    done: int,
    to: int,
)
    requires
        sorted_so_far(before, now, places, done),
        done < now.len(),
        0 <= to <= done,
        forall|k: int| 0 <= k < to ==> name_order((#[trigger] now[k]).name, now[done].name) <= 0,
        to < done ==> name_order(now[to].name, now[done].name) > 0,
    ensures
        sorted_so_far(
            before,
            now.remove(done).insert(to, now[done]),
            places.remove(done).insert(to, places[done]),
            done + 1,
        ),
{
    let moved = now.remove(done).insert(to, now[done]);
    let from = places.remove(done).insert(to, places[done]);
    let x = now[done];
    assert(places[done] == done);
    // Where each record now stands.
    assert forall|k: int| 0 <= k < now.len() implies #[trigger] moved[k] == (if k < to {
        now[k]
    } else if k == to {
        x
    } else if k <= done {
        now[k - 1]
    } else {
        now[k]
    }) && #[trigger] from[k] == (if k < to {
        places[k]
    } else if k == to {
        done
    } else if k <= done {
        places[k - 1]
    } else {
        places[k]
    }) by {}
    assert forall|i: int| 0 <= i < moved.len() implies 0 <= #[trigger] from[i] < before.len()
        && moved[i] == before[from[i]] by {
        if i < to {
            assert(now[i] == before[places[i]]);
        } else if i == to {
            assert(now[done] == before[places[done]]);
        } else if i <= done {
            assert(now[i - 1] == before[places[i - 1]]);
        } else {
            assert(now[i] == before[places[i]]);
        }
    }
    assert forall|i: int, j: int|
        #![trigger from[i], from[j]]
        0 <= i < j < moved.len() implies from[i] != from[j] by {
        let a = if i < to {
            i
        } else if i == to {
            done
        } else if i <= done {
            i - 1
        } else {
            i
        };
        let b = if j < to {
            j
        } else if j == to {
            done
        } else if j <= done {
            j - 1
        } else {
            j
        };
        assert(from[i] == places[a]);
        assert(from[j] == places[b]);
        if a < b {
            assert(places[a] != places[b]);
        } else {
            assert(places[b] != places[a]);
        }
    }
    assert forall|i: int, j: int|
        #![trigger moved[i], moved[j]]
        0 <= i < j < done + 1 implies name_order(moved[i].name, moved[j].name) < 0 || (name_order(
            moved[i].name,
            moved[j].name,
        ) == 0 && from[i] < from[j]) by {
        if j < to {
            assert(moved[i] == now[i] && moved[j] == now[j]);
        } else if j == to {
            assert(name_order(now[i].name, x.name) <= 0);
            assert(places[i] < done);
        } else if i < to {
            assert(moved[i] == now[i] && moved[j] == now[j - 1]);
        } else if i == to {
            lemma_name_order_flip(now[to].name, x.name);
            if j - 1 > to {
                assert(name_order(now[to].name, now[j - 1].name) <= 0);
            } else {
                lemma_text_order_equal(lowercase_of(now[to].name), lowercase_of(now[to].name));
            }
            lemma_name_order_transitive(x.name, now[to].name, now[j - 1].name);
        } else {
            assert(moved[i] == now[i - 1] && moved[j] == now[j - 1]);
        }
    }
    assert forall|i: int| 0 <= i < done + 1 implies #[trigger] from[i] < done + 1 by {
        if i < to {
            assert(places[i] < done);
        } else if i > to {
            assert(places[i - 1] < done);
        }
    }
    assert forall|i: int| done + 1 <= i < moved.len() implies #[trigger] from[i] == i by {
        assert(places[i] == i);
    }
}

/// Sorts the records by name. Records of equal rank stay in their order.
pub(crate) fn sort_connections(connections: &mut Vec<ServerConnection>)
    ensures
        sorted_stably(connections_view(old(connections)@), connections_view(final(connections)@)),
{
    let ghost before = connections_view(connections@);
    let ghost mut places: Seq<int> = Seq::new(before.len(), |i: int| i);
    let n = connections.len();
    let mut done: usize = 0;
    while done < n
        invariant
            n == connections@.len(),
            sorted_so_far(before, connections_view(connections@), places, done as int),
        decreases n - done,
    {
        let ghost now = connections_view(connections@);
        let mut to: usize = 0;
        while to < done && name_rank(&connections[to], &connections[done]) <= 0
            invariant
                to <= done < n,
                n == connections@.len(),
                now == connections_view(connections@),
                forall|k: int|
                    0 <= k < to ==> name_order((#[trigger] now[k]).name, now[done as int].name)
                        <= 0,
            decreases done - to,
        {
            to += 1;
        }
        proof {
            lemma_moved(before, now, places, done as int, to as int);
        }
        let record = connections.remove(done);
        connections.insert(to, record);
        proof {
            assert(connections_view(connections@) =~= now.remove(done as int).insert(
                to as int,
                now[done as int],
            ));
            places = places.remove(done as int).insert(to as int, places[done as int]);
        }
        done += 1;
    }
    assert(is_stable_order(before, connections_view(connections@), places));
}

} // verus!
