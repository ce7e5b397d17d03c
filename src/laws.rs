use vstd::prelude::*;

use crate::codec::partition_text;
use crate::db::{Listed, Partition, Walked, users_result, is_partition, partition_path, walk_result};
use crate::question::{QuestionView, views};
use crate::week::{decimal, digit_char, digit_value, digits_value, unsigned_digits, week_number};

verus! {

proof fn lemma_digit(d: nat)
    requires
        d < 10,
    ensures
        digit_value(digit_char(d)) == d,
        '0' <= digit_char(d) <= '9',
{
    assert(digit_value('0') == 0 && digit_value('1') == 1 && digit_value('2') == 2);
    assert(digit_value('3') == 3 && digit_value('4') == 4 && digit_value('5') == 5);
    assert(digit_value('6') == 6 && digit_value('7') == 7 && digit_value('8') == 8);
    assert(digit_value('9') == 9);
}

/// The name of a week's partition file reads back as that week, so a walk
/// over the store takes every partition file that a write made.
pub proof fn lemma_week_name_round_trip(week: u8)
    ensures
        week_number(decimal(week)) == Some(week),
        is_partition(decimal(week), true),
{
    let s = decimal(week);
    let n = week as nat;
    lemma_digit(n % 10);
    assert(unsigned_digits(s) == s);
    assert(digits_value(Seq::<char>::empty()) == 0);
    if n < 10 {
        lemma_digit(n);
        assert(s.drop_last() =~= Seq::<char>::empty());
        assert(digits_value(s) == n);
    } else if n < 100 {
        lemma_digit(n / 10);
        let a = s.drop_last();
        assert(a =~= seq![digit_char(n / 10)]);
        assert(a.drop_last() =~= Seq::<char>::empty());
        assert(digits_value(a) == n / 10);
        assert(digits_value(s) == n);
    } else {
        lemma_digit(n / 100);
        lemma_digit(n / 10 % 10);
        let a = s.drop_last();
        let b = a.drop_last();
        assert(a =~= seq![digit_char(n / 100), digit_char(n / 10 % 10)]);
        assert(b =~= seq![digit_char(n / 100)]);
        assert(b.drop_last() =~= Seq::<char>::empty());
        assert(digits_value(b) == n / 100);
        assert(digits_value(a) == n / 10);
        assert(digits_value(s) == n);
    }
}

/// No partition's file name holds a `/`.
proof fn lemma_decimal_has_no_slash(week: u8)
    ensures
        forall|i: int| 0 <= i < decimal(week).len() ==> #[trigger] decimal(week)[i] != '/',
        1 <= decimal(week).len() <= 3,
{
    let n = week as nat;
    lemma_digit(n % 10);
    if n >= 10 {
        lemma_digit(n / 10 % 10);
    }
    if 10 <= n < 100 {
        lemma_digit(n / 10);
    }
    if n >= 100 {
        lemma_digit(n / 100);
    }
}

/// Two different partitions live in two different files, whatever the user
/// names are: a write to one partition never touches another.
pub proof fn lemma_partition_paths_distinct(
    root: Seq<char>,
    user1: Seq<char>,
    week1: u8,
    user2: Seq<char>,
    week2: u8,
)
    requires
        user1 != user2 || week1 != week2,
    ensures
        partition_path(root, user1, week1) != partition_path(root, user2, week2),
{
    let p1 = partition_path(root, user1, week1);
    let p2 = partition_path(root, user2, week2);
    let d1 = decimal(week1);
    let d2 = decimal(week2);
    lemma_decimal_has_no_slash(week1);
    lemma_decimal_has_no_slash(week2);
    if p1 == p2 {
        let l = p1.len();
        assert(p1[l - d1.len() - 1] == '/');
        assert(p2[l - d2.len() - 1] == '/');
        if d1.len() < d2.len() {
            assert(p2[l - d1.len() - 1] == d2[d2.len() - d1.len() - 1]);
            assert(false);
        } else if d2.len() < d1.len() {
            assert(p1[l - d2.len() - 1] == d1[d1.len() - d2.len() - 1]);
            assert(false);
        }
        assert(d1 =~= p1.skip(l - d1.len()));
        assert(d2 =~= p2.skip(l - d2.len()));
        lemma_week_name_round_trip(week1);
        lemma_week_name_round_trip(week2);
        assert(week1 == week2);
        assert(user1 =~= p1.subrange(root.len() as int + 1, l - d1.len() - 1));
        assert(user2 =~= p2.subrange(root.len() as int + 1, l - d2.len() - 1));
    }
}

/// The files of a store: each path with the text its file holds.
pub open spec fn after_write(
    files: Map<Seq<char>, Seq<char>>,
    root: Seq<char>,
    user: Seq<char>,
    week: u8,
    qs: Seq<QuestionView>,
) -> Map<Seq<char>, Seq<char>> {
    files.insert(partition_path(root, user, week), partition_text(qs))
}

/// Writing a partition replaces it whole: after two writes of one partition
/// the store's files are as if only the second had been made, and every
/// other partition's file is as it was.
pub proof fn lemma_overwrite(
    files: Map<Seq<char>, Seq<char>>,
    root: Seq<char>,
    user: Seq<char>,
    week: u8,
    first: Seq<QuestionView>,
    second: Seq<QuestionView>,
    other_user: Seq<char>,
    other_week: u8,
)
    requires
        other_user != user || other_week != week,
    ensures
        after_write(after_write(files, root, user, week, first), root, user, week, second)
            == after_write(files, root, user, week, second),
        after_write(files, root, user, week, second)[partition_path(root, user, week)]
            == partition_text(second),
        after_write(files, root, user, week, second).contains_key(
            partition_path(root, other_user, other_week),
        ) == files.contains_key(partition_path(root, other_user, other_week)),
        after_write(files, root, user, week, second)[partition_path(root, other_user, other_week)]
            == files[partition_path(root, other_user, other_week)],
{
    lemma_partition_paths_distinct(root, user, week, other_user, other_week);
    assert(after_write(after_write(files, root, user, week, first), root, user, week, second)
        =~= after_write(files, root, user, week, second));
}

/// The questions of the partitions of a walk, one after another.
pub open spec fn walk_questions(w: Seq<Walked>) -> Seq<QuestionView>
    decreases w.len(),
{
    if w.len() == 0 {
        Seq::empty()
    } else {
        let rest = walk_questions(w.drop_first());
        match w[0] {
            Walked::Entry { contents: Partition::Questions(v), .. } => views(v@) + rest,
            _ => rest,
        }
    }
}

/// Whether an item of a walk is a partition file that a write made: a file
/// named by a week's number, read without failure.
pub open spec fn is_written_partition(item: Walked) -> bool {
    match item {
        Walked::Entry { name, is_file, contents } => {
            &&& is_file
            &&& exists|week: u8| name@ == decimal(week)
            &&& contents is Questions
        },
        Walked::Failed(_) => false,
    }
}

/// A walk that meets only partition files that writes made gives every
/// question of every one of them, each partition's in its order.
pub proof fn lemma_walk_complete(w: Seq<Walked>)
    requires
        forall|i: int| 0 <= i < w.len() ==> is_written_partition(#[trigger] w[i]),
    ensures
        walk_result(w) == Ok::<Seq<QuestionView>, crate::error::DQError>(walk_questions(w)),
    decreases w.len(),
{
    if w.len() > 0 {
        let rest = w.drop_first();
        assert forall|i: int| 0 <= i < rest.len() implies is_written_partition(#[trigger] rest[i]) by {
            assert(rest[i] == w[i + 1]);
        }
        lemma_walk_complete(rest);
        assert(is_written_partition(w[0]));
        if let Walked::Entry { name, is_file, contents } = w[0] {
            let week = choose|week: u8| name@ == decimal(week);
            lemma_week_name_round_trip(week);
        }
    }
}

/// Whether an item of a listing of the root is a directory named `name`.
pub open spec fn is_dir_named(item: Listed, name: Seq<char>) -> bool {
    match item {
        Listed::Entry { name: n, is_dir } => is_dir && n@ == name,
        Listed::Failed(_) => false,
    }
}

/// A listing of the root without failures gives every directory's name and
/// no other, each as often as it is listed.
pub proof fn lemma_users_complete(l: Seq<Listed>)
    requires
        forall|i: int| 0 <= i < l.len() ==> (#[trigger] l[i]) is Entry,
    ensures
        users_result(l) is Ok,
        forall|name: Seq<char>|
            users_result(l)->Ok_0.contains(name) <==> exists|i: int|
                0 <= i < l.len() && is_dir_named(#[trigger] l[i], name),
    decreases l.len(),
{
    if l.len() > 0 {
        let rest = l.drop_first();
        assert forall|i: int| 0 <= i < rest.len() implies (#[trigger] rest[i]) is Entry by {
            assert(rest[i] == l[i + 1]);
        }
        lemma_users_complete(rest);
        let t = users_result(rest)->Ok_0;
        assert(l[0] is Entry);
        assert forall|name: Seq<char>|
            users_result(l)->Ok_0.contains(name) <==> exists|i: int|
                0 <= i < l.len() && is_dir_named(#[trigger] l[i], name) by {
            if let Listed::Entry { name: n, is_dir } = l[0] {
                if is_dir {
                    let r = seq![n@] + t;
                    assert(users_result(l)->Ok_0 == r);
                    if r.contains(name) {
                        let k = choose|k: int| 0 <= k < r.len() && r[k] == name;
                        if k == 0 {
                            assert(is_dir_named(l[0], name));
                        } else {
                            assert(t[k - 1] == name);
                            assert(t.contains(name));
                            let j = choose|j: int| 0 <= j < rest.len() && is_dir_named(#[trigger] rest[j], name);
                            assert(l[j + 1] == rest[j]);
                            assert(is_dir_named(l[j + 1], name));
                        }
                    }
                    if exists|i: int| 0 <= i < l.len() && is_dir_named(#[trigger] l[i], name) {
                        let i = choose|i: int| 0 <= i < l.len() && is_dir_named(#[trigger] l[i], name);
                        if i == 0 {
                            assert(r[0] == name);
                        } else {
                            assert(rest[i - 1] == l[i]);
                            assert(t.contains(name));
                            let k = choose|k: int| 0 <= k < t.len() && t[k] == name;
                            assert(r[k + 1] == name);
                        }
                    }
                } else {
                    assert(users_result(l)->Ok_0 == t);
                    if t.contains(name) {
                        let j = choose|j: int| 0 <= j < rest.len() && is_dir_named(#[trigger] rest[j], name);
                        assert(l[j + 1] == rest[j]);
                        assert(is_dir_named(l[j + 1], name));
                    }
                    if exists|i: int| 0 <= i < l.len() && is_dir_named(#[trigger] l[i], name) {
                        let i = choose|i: int| 0 <= i < l.len() && is_dir_named(#[trigger] l[i], name);
                        assert(i != 0);
                        assert(rest[i - 1] == l[i]);
                    }
                }
            }
        }
    }
}

} // verus!
