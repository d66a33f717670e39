//! The names of snapshot files, and the order in which they are tried at startup.

use crate::text::{same_text, texts};
use vstd::prelude::*;
use vstd::std_specs::iter::IteratorSpec;
use vstd::string::{StrSliceExecFns, StringExecFns};

verus! {

/// Whether a file of this name is a snapshot: its name begins with `messages`.
pub open spec fn is_dump_name(name: Seq<char>) -> bool {
    "messages"@.is_prefix_of(name)
}

/// The order of texts by their characters, the first difference deciding; a
/// text comes before each of its extensions. Equal texts are in order.
pub open spec fn text_le(a: Seq<char>, b: Seq<char>) -> bool
    decreases a.len(),
{
    if a.len() == 0 {
        true
    } else if b.len() == 0 {
        false
    } else if a[0] != b[0] {
        a[0] < b[0]
    } else {
        text_le(a.drop_first(), b.drop_first())
    }
}

/// Of two texts, one is in order before the other.
pub proof fn lemma_text_le_total(a: Seq<char>, b: Seq<char>)
    ensures
        text_le(a, b) || text_le(b, a),
    decreases a.len(),
{
    if a.len() > 0 && b.len() > 0 && a[0] == b[0] {
        lemma_text_le_total(a.drop_first(), b.drop_first());
    }
}

/// The order of texts carries over from one pair to the next.
pub proof fn lemma_text_le_transitive(a: Seq<char>, b: Seq<char>, c: Seq<char>)
    requires
        text_le(a, b),
        text_le(b, c),
    ensures
        text_le(a, c),
    decreases a.len(),
{
    if a.len() > 0 && b.len() > 0 && c.len() > 0 && a[0] == b[0] && b[0] == c[0] {
        lemma_text_le_transitive(a.drop_first(), b.drop_first(), c.drop_first());
    }
}

/// Every text is followed in order by all that come after it: the newest name first.
pub open spec fn is_newest_first(names: Seq<Seq<char>>) -> bool {
    forall|i: int, j: int| 0 <= i < j < names.len() ==> text_le(names[j], names[i])
}

/// The snapshot names among `names`, in the order in which they stand there.
pub open spec fn dump_names(names: Seq<Seq<char>>) -> Seq<Seq<char>> {
    names.filter(|name: Seq<char>| is_dump_name(name))
}

/// Whether `a` is in order before `b`.
pub fn comes_before(a: &str, b: &str) -> (le: bool)
    ensures
        le == text_le(a@, b@),
{
    let mut left = a.chars();
    let mut right = b.chars();
    let ghost mut done: int = 0;
    loop
        invariant
            0 <= done <= a@.len(),
            done <= b@.len(),
            left.remaining() == a@.skip(done),
            right.remaining() == b@.skip(done),
            text_le(a@, b@) == text_le(a@.skip(done), b@.skip(done)),
        decreases a@.len() - done,
    {
        match left.next() {
            None => {
                return true;
            },
            Some(c) => match right.next() {
                None => {
                    return false;
                },
                Some(d) => {
                    if c != d {
                        return c < d;
                    }
                    proof {
                        assert(a@.skip(done).drop_first() == a@.skip(done + 1));
                        assert(b@.skip(done).drop_first() == b@.skip(done + 1));
                        done = done + 1;
                    }
                },
            },
        }
    }
}

/// The name of the snapshot file that is begun at the moment written as `stamp`.
pub fn dump_file_name(stamp: &str) -> (name: String)
    ensures
        name@ == "messages-"@ + stamp@ + ".json.gz"@,
        is_dump_name(name@),
{
    let mut name = String::from_str("messages-");
    name.append(stamp);
    name.append(".json.gz");
    proof {
        reveal_strlit("messages-");
        reveal_strlit("messages");
        assert("messages"@ =~= name@.subrange(0, 8));
    }
    name
}

/// Tells whether a file of this name is a snapshot.
pub fn is_dump(name: &str) -> (dump: bool)
    ensures
        dump == is_dump_name(name@),
{
    let prefix = "messages";
    let wanted = prefix.unicode_len();
    if name.unicode_len() < wanted {
        false
    } else {
        let head = name.substring_char(0, wanted);
        same_text(head, prefix)
    }
}

proof fn lemma_dump_names_step(names: Seq<Seq<char>>, i: int)
    requires
        0 <= i < names.len(),
    ensures
        dump_names(names.take(i + 1)) == if is_dump_name(names[i]) {
            dump_names(names.take(i)).push(names[i])
        } else {
            dump_names(names.take(i))
        },
{
    let head = names.take(i + 1);
    assert(head.drop_last() == names.take(i));
    assert(head.last() == names[i]);
    reveal_with_fuel(Seq::filter, 2);
}

/// Puts `name` into `sorted` at its place, the newest name first.
fn insert_newest_first(sorted: &mut Vec<String>, name: String)
    requires
        is_newest_first(texts(old(sorted)@)),
    ensures
        is_newest_first(texts(final(sorted)@)),
        texts(final(sorted)@).to_multiset() == texts(
            old(sorted)@,
        ).to_multiset().insert(name@),
{
    let mut k: usize = 0;
    while k < sorted.len() && comes_before(name.as_str(), sorted[k].as_str())
        invariant
            k <= sorted.len(),
            sorted@ == old(sorted)@,
            forall|i: int| 0 <= i < k ==> text_le(name@, (#[trigger] sorted@[i])@),
        decreases sorted.len() - k,
    {
        k = k + 1;
    }
    let ghost before = texts(sorted@);
    sorted.insert(k, name);
    proof {
        let after = texts(sorted@);
        assert(after =~= before.insert(k as int, name@));
        assert forall|i: int, j: int| 0 <= i < j < after.len() implies text_le(
            after[j],
            after[i],
        ) by {
            if j < k {
                assert(text_le(before[j], before[i]));
            } else if j == k {
                assert(text_le(name@, old(sorted)@[i]@));
            } else if i < k {
                assert(text_le(before[j - 1], before[i]));
            } else if i == k {
                lemma_text_le_total(name@, before[k as int]);
                if j - 1 > k {
                    assert(text_le(before[j - 1], before[k as int]));
                    lemma_text_le_transitive(before[j - 1], before[k as int], name@);
                }
            } else {
                assert(text_le(before[j - 1], before[i - 1]));
            }
        }
        vstd::seq_lib::to_multiset_insert(before, k as int, name@);
    }
}

/// The snapshot names among `names`, the newest first: those that begin
/// with `messages`, each as often as it was given, in falling order.
pub fn find_dumps(names: &Vec<String>) -> (dumps: Vec<String>)
    ensures
        is_newest_first(texts(dumps@)),
        texts(dumps@).to_multiset() == dump_names(texts(names@)).to_multiset(),
{
    let mut dumps: Vec<String> = Vec::new();
    let ghost all = texts(names@);
    proof {
        assert(dump_names(all.take(0)) =~= Seq::<Seq<char>>::empty());
        assert(texts(dumps@) =~= Seq::<Seq<char>>::empty());
    }
    for i in 0..names.len()
        invariant
            all == texts(names@),
            is_newest_first(texts(dumps@)),
            texts(dumps@).to_multiset() == dump_names(all.take(i as int)).to_multiset(),
    {
        proof {
            lemma_dump_names_step(all, i as int);
            assert(all[i as int] == names@[i as int]@);
            vstd::seq_lib::to_multiset_build(dump_names(all.take(i as int)), all[i as int]);
        }
        if is_dump(names[i].as_str()) {
            insert_newest_first(&mut dumps, names[i].clone());
        }
    }
    assert(all.take(all.len() as int) == all);
    dumps
}

} // verus!
