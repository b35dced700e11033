//! The audit log: what is written, when it is rotated, and which old files go.

pub mod visual;

use vstd::prelude::*;

use crate::text::{chars_of, ends_with, has_prefix, has_suffix, starts_with};

verus! {

/// Size at which a log file is rotated, in bytes.
pub const LIMIT: u64 = 4_194_304;

/// Runs a stage and reports whether it succeeded. The outcome is the stage's own.
pub fn measure<T, E, W: FnOnce() -> Result<T, E>, R: FnOnce(&str, bool)>(
    stage: &str,
    work: W,
    report: R,
) -> (result: Result<T, E>)
    requires
        work.requires(()),
        forall|outcome: Result<T, E>| #[trigger]
            work.ensures((), outcome) ==> report.requires((stage, outcome is Ok)),
    ensures
        work.ensures((), result),
        report.ensures((stage, result is Ok), ()),
{
    let result = work();
    let success = result.is_ok();
    report(stage, success);
    result
}

/// The log file that is being written.
#[derive(Clone, Copy, Debug, PartialEq, Eq, Structural)]
pub struct LogFile {
    /// Bytes written to it.
    pub size: u64,
}

impl LogFile {
    pub fn new() -> (result: Self)
        ensures
            result.size == 0,
    {
        LogFile { size: 0 }
    }

    /// Notes that a line of `length` bytes is written, and returns whether the file is
    /// rotated first: where the line would take it over the limit.
    pub fn append(&mut self, length: u64) -> (result: bool)
        requires
            old(self).size + length <= u64::MAX,
        ensures
            result == (old(self).size + length > LIMIT),
            final(self).size == if result {
                length as int
            } else {
                old(self).size + length
            },
            old(self).size <= LIMIT && length <= LIMIT ==> final(self).size <= LIMIT,
    {
        let rotate = self.size + length > LIMIT;
        if rotate {
            self.size = 0;
        }
        self.size = self.size + length;
        rotate
    }
}

/// `message` with every line break replaced by a space.
pub open spec fn on_one_line(message: Seq<char>) -> Seq<char> {
    message.map_values(
        |character: char|
            if character == '\r' || character == '\n' {
                ' '
            } else {
                character
            },
    )
}

/// Puts a message on one line.
pub fn single_line(message: &str) -> (result: String)
    ensures
        result@ == on_one_line(message@),
        forall|i: int| 0 <= i < result@.len() ==> result@[i] != '\r' && result@[i] != '\n',
{
    let chars = chars_of(message);
    let mut result = String::new();
    let mut i: usize = 0;
    assert(result@ =~= on_one_line(message@).take(0));
    while i < chars.len()
        invariant
            i <= chars.len(),
            chars@ == message@,
            result@ == on_one_line(message@).take(i as int),
        decreases chars.len() - i,
    {
        let character = chars[i];
        let kept = if character == '\r' || character == '\n' { ' ' } else { character };
        result.push(kept);
        assert(result@ =~= on_one_line(message@).take(i + 1));
        i += 1;
    }
    assert(on_one_line(message@).take(i as int) =~= on_one_line(message@));
    result
}

/// A file is one of the log files.
pub open spec fn is_log_name(name: Seq<char>) -> bool {
    has_prefix(name, "snapbar-"@) && has_suffix(name, ".log"@)
}

/// `left` comes before `right` in the order of names, or is the same: by the first
/// character in which they differ, the shorter one first where one continues the other.
pub open spec fn name_before(left: Seq<char>, right: Seq<char>) -> bool
    decreases left.len(),
{
    if left.len() == 0 {
        true
    } else if right.len() == 0 {
        false
    } else if left.first() != right.first() {
        left.first() < right.first()
    } else {
        name_before(left.drop_first(), right.drop_first())
    }
}

fn precedes(left: &Vec<char>, right: &Vec<char>) -> (result: bool)
    ensures
        result == name_before(left@, right@),
{
    let mut i: usize = 0;
    assert(left@.skip(0) =~= left@);
    assert(right@.skip(0) =~= right@);
    loop
        invariant
            i <= left.len(),
            i <= right.len(),
            name_before(left@, right@) == name_before(left@.skip(i as int), right@.skip(i as int)),
        decreases left.len() - i,
    {
        if i == left.len() {
            return true;
        }
        if i == right.len() {
            return false;
        }
        assert(left@.skip(i as int).first() == left@[i as int]);
        assert(right@.skip(i as int).first() == right@[i as int]);
        if left[i] != right[i] {
            return left[i] < right[i];
        }
        assert(left@.skip(i as int).drop_first() =~= left@.skip(i + 1));
        assert(right@.skip(i as int).drop_first() =~= right@.skip(i + 1));
        i += 1;
    }
}

/// The log files among the files of a folder.
pub open spec fn log_names(names: Seq<Seq<char>>) -> Seq<Seq<char>>
    decreases names.len(),
{
    if names.len() == 0 {
        Seq::empty()
    } else if is_log_name(names.last()) {
        log_names(names.drop_last()).push(names.last())
    } else {
        log_names(names.drop_last())
    }
}

/// `name` behind every name of the list that comes before it or is the same.
pub open spec fn with_name(list: Seq<Seq<char>>, name: Seq<char>) -> Seq<Seq<char>>
    decreases list.len(),
{
    if list.len() == 0 || name_before(list.last(), name) {
        list.push(name)
    } else {
        with_name(list.drop_last(), name).push(list.last())
    }
}

/// The names in their order.
pub open spec fn sorted_names(names: Seq<Seq<char>>) -> Seq<Seq<char>>
    decreases names.len(),
{
    if names.len() == 0 {
        Seq::empty()
    } else {
        with_name(sorted_names(names.drop_last()), names.last())
    }
}

/// Number of files that are removed so that `keep` of `count` stay.
pub open spec fn surplus(count: nat, keep: usize) -> nat {
    if count > keep {
        (count - keep) as nat
    } else {
        0
    }
}

/// The texts of strings.
pub open spec fn strings(list: Seq<String>) -> Seq<Seq<char>> {
    list.map_values(|name: String| name@)
}

proof fn lemma_name_place(list: Seq<Seq<char>>, name: Seq<char>, at: int)
    requires
        0 <= at <= list.len(),
        at > 0 ==> name_before(list[at - 1], name),
        forall|k: int| at <= k < list.len() ==> !name_before(#[trigger] list[k], name),
    ensures
        with_name(list, name) == list.insert(at, name),
    decreases list.len(),
{
    if at < list.len() {
        let shorter = list.drop_last();
        assert(list.last() == list[list.len() - 1]);
        assert forall|k: int| at <= k < shorter.len() implies !name_before(
            #[trigger] shorter[k],
            name,
        ) by {
            assert(shorter[k] == list[k]);
        }
        if at > 0 {
            assert(shorter[at - 1] == list[at - 1]);
        }
        lemma_name_place(shorter, name, at);
        assert(shorter.insert(at, name).push(list.last()) =~= list.insert(at, name));
    } else {
        assert(list.insert(at, name) =~= list.push(name));
    }
}

fn insert_sorted(list: &mut Vec<String>, name: String)
    ensures
        strings(final(list)@) == with_name(strings(old(list)@), name@),
{
    let ghost before = strings(list@);
    let wanted = chars_of(name.as_str());
    let mut at: usize = list.len();
    while at > 0 && !precedes(&chars_of(list[at - 1].as_str()), &wanted)
        invariant
            at <= list.len(),
            wanted@ == name@,
            before == strings(list@),
            list@ == old(list)@,
            forall|k: int| at <= k < before.len() ==> !name_before(#[trigger] before[k], name@),
        decreases at,
    {
        assert(before[at - 1] == list@[at - 1]@);
        at -= 1;
    }
    proof {
        if at > 0 {
            assert(before[at - 1] == list@[at - 1]@);
        }
        lemma_name_place(before, name@, at as int);
    }
    list.insert(at, name);
    assert(strings(list@) =~= before.insert(at as int, name@));
}

/// The old log files of a folder, in order: all but the last `keep` of them. Files that
/// are no log files are never among them.
pub fn prune(names: &Vec<String>, keep: usize) -> (result: Vec<String>)
    ensures
        strings(result@) == sorted_names(log_names(strings(names@))).take(
            surplus(log_names(strings(names@)).len(), keep) as int,
        ),
{
    let ghost all = strings(names@);
    let mut sorted: Vec<String> = Vec::new();
    let mut i: usize = 0;
    assert(all.take(0) =~= Seq::<Seq<char>>::empty());
    assert(strings(sorted@) =~= Seq::<Seq<char>>::empty());
    while i < names.len()
        invariant
            i <= names.len(),
            all == strings(names@),
            strings(sorted@) == sorted_names(log_names(all.take(i as int))),
        decreases names.len() - i,
    {
        proof {
            assert(all.take(i + 1).drop_last() =~= all.take(i as int));
            assert(all.take(i + 1).last() == names@[i as int]@);
        }
        let name = names[i].as_str();
        if starts_with(name, "snapbar-") && ends_with(name, ".log") {
            proof {
                let before = log_names(all.take(i as int));
                assert(before.push(name@).drop_last() =~= before);
            }
            insert_sorted(&mut sorted, names[i].clone());
        }
        i += 1;
    }
    assert(all.take(i as int) =~= all);
    let ghost list = log_names(all);
    proof {
        lemma_sorted_length(list);
    }
    let count: usize = sorted.len();
    let remove: usize = count.saturating_sub(keep);
    let ghost before = strings(sorted@);
    assert(before.len() == list.len());
    sorted.truncate(remove);
    assert(strings(sorted@) =~= before.take(remove as int));
    sorted
}

proof fn lemma_with_name_length(list: Seq<Seq<char>>, name: Seq<char>)
    ensures
        with_name(list, name).len() == list.len() + 1,
    decreases list.len(),
{
    if list.len() > 0 && !name_before(list.last(), name) {
        lemma_with_name_length(list.drop_last(), name);
    }
}

proof fn lemma_sorted_length(names: Seq<Seq<char>>)
    ensures
        sorted_names(names).len() == names.len(),
    decreases names.len(),
{
    if names.len() > 0 {
        lemma_sorted_length(names.drop_last());
        lemma_with_name_length(sorted_names(names.drop_last()), names.last());
    }
}

proof fn lemma_names_are_ordered(left: Seq<char>, right: Seq<char>)
    ensures
        name_before(left, right) || name_before(right, left),
    decreases left.len(),
{
    if left.len() > 0 && right.len() > 0 && left.first() == right.first() {
        lemma_names_are_ordered(left.drop_first(), right.drop_first());
    }
}

proof fn lemma_order_goes_on(left: Seq<char>, middle: Seq<char>, right: Seq<char>)
    requires
        name_before(left, middle),
        name_before(middle, right),
    ensures
        name_before(left, right),
    decreases left.len(),
{
    if left.len() > 0 && right.len() > 0 && left.first() == right.first() {
        lemma_order_goes_on(left.drop_first(), middle.drop_first(), right.drop_first());
    }
}

/// No name of the list comes after a later one.
pub open spec fn is_in_order(list: Seq<Seq<char>>) -> bool {
    forall|i: int, j: int|
        0 <= i < j < list.len() ==> name_before(#[trigger] list[i], #[trigger] list[j])
}

proof fn lemma_with_name_keeps_order(list: Seq<Seq<char>>, name: Seq<char>)
    requires
        is_in_order(list),
    ensures
        is_in_order(with_name(list, name)),
        with_name(list, name).to_multiset() == list.to_multiset().insert(name),
        forall|i: int|
            0 <= i < with_name(list, name).len() ==> with_name(list, name)[i] == name
                || list.contains(#[trigger] with_name(list, name)[i]),
    decreases list.len(),
{
    broadcast use vstd::seq_lib::group_to_multiset_ensures;

    let result = with_name(list, name);
    if list.len() == 0 || name_before(list.last(), name) {
        assert forall|i: int, j: int| 0 <= i < j < result.len() implies name_before(
            #[trigger] result[i],
            #[trigger] result[j],
        ) by {
            if j == list.len() && i < list.len() - 1 {
                assert(name_before(list[i], list[list.len() - 1]));
                lemma_order_goes_on(list[i], list.last(), name);
            }
        }
        assert forall|i: int| 0 <= i < result.len() implies result[i] == name || list.contains(
            #[trigger] result[i],
        ) by {
            if i < list.len() {
                assert(list[i] == result[i]);
            }
        }
    } else {
        let shorter = list.drop_last();
        let inner = with_name(shorter, name);
        assert forall|i: int, j: int| 0 <= i < j < shorter.len() implies name_before(
            #[trigger] shorter[i],
            #[trigger] shorter[j],
        ) by {
            assert(name_before(list[i], list[j]));
        }
        lemma_with_name_keeps_order(shorter, name);
        lemma_names_are_ordered(list.last(), name);
        assert(list =~= shorter.push(list.last()));
        assert(result.to_multiset() =~= list.to_multiset().insert(name));
        assert forall|i: int| 0 <= i < inner.len() implies name_before(
            #[trigger] inner[i],
            list.last(),
        ) && (inner[i] == name || list.contains(inner[i])) by {
            if inner[i] != name {
                let k = choose|k: int| 0 <= k < shorter.len() && shorter[k] == inner[i];
                assert(shorter.contains(inner[i]));
                assert(list[k] == inner[i]);
                assert(name_before(list[k], list[list.len() - 1]));
            }
        }
        assert forall|i: int, j: int| 0 <= i < j < result.len() implies name_before(
            #[trigger] result[i],
            #[trigger] result[j],
        ) by {
            if j < inner.len() {
                assert(name_before(inner[i], inner[j]));
            } else {
                assert(name_before(inner[i], list.last()));
            }
        }
        assert forall|i: int| 0 <= i < result.len() implies result[i] == name || list.contains(
            #[trigger] result[i],
        ) by {
            if i < inner.len() {
                assert(result[i] == inner[i]);
            } else {
                assert(list[list.len() - 1] == result[i]);
            }
        }
    }
}

/// Sorting keeps the names and puts them in order.
pub proof fn law_names_are_sorted(names: Seq<Seq<char>>)
    ensures
        sorted_names(names).to_multiset() == names.to_multiset(),
        is_in_order(sorted_names(names)),
    decreases names.len(),
{
    broadcast use vstd::seq_lib::group_to_multiset_ensures;

    if names.len() > 0 {
        law_names_are_sorted(names.drop_last());
        lemma_with_name_keeps_order(sorted_names(names.drop_last()), names.last());
        assert(names =~= names.drop_last().push(names.last()));
    }
}

/// Of the log files, `keep` stay or all where there are fewer, and no name that is removed
/// comes after one that stays.
pub proof fn law_pruning_keeps_the_newest(names: Seq<Seq<char>>, keep: usize)
    ensures
        ({
            let all = sorted_names(log_names(names));
            let removed = all.take(surplus(log_names(names).len(), keep) as int);
            let kept = all.skip(surplus(log_names(names).len(), keep) as int);
            &&& kept.len() == if log_names(names).len() < keep {
                log_names(names).len()
            } else {
                keep as nat
            }
            &&& removed + kept == all
            &&& forall|i: int, j: int|
                0 <= i < removed.len() && 0 <= j < kept.len() ==> name_before(
                    #[trigger] removed[i],
                    #[trigger] kept[j],
                )
        }),
{
    let all = sorted_names(log_names(names));
    let count = surplus(log_names(names).len(), keep) as int;
    law_names_are_sorted(log_names(names));
    lemma_sorted_length(log_names(names));
    let removed = all.take(count);
    let kept = all.skip(count);
    assert(removed + kept =~= all);
    assert forall|i: int, j: int|
        0 <= i < removed.len() && 0 <= j < kept.len() implies name_before(
        #[trigger] removed[i],
        #[trigger] kept[j],
    ) by {
        assert(name_before(all[i], all[count + j]));
    }
}

/// A message on one line has the characters of the message, each in its place, and a space
/// for each line break.
pub proof fn law_one_line_keeps_the_message(message: Seq<char>, at: int)
    requires
        0 <= at < message.len(),
    ensures
        on_one_line(message).len() == message.len(),
        message[at] != '\r' && message[at] != '\n' ==> on_one_line(message)[at] == message[at],
        message[at] == '\r' || message[at] == '\n' ==> on_one_line(message)[at] == ' ',
        on_one_line(on_one_line(message)) == on_one_line(message),
{
    let line = on_one_line(message);
    assert(on_one_line(line) =~= line);
}

/// Whatever stands between the start and the end of a log file's name, it is one; a name of
/// another kind of file, or with something in front, is none.
pub proof fn law_log_files_are_known_by_their_names(middle: Seq<char>, name: Seq<char>)
    ensures
        is_log_name("snapbar-"@ + middle + ".log"@),
        is_log_name(name) ==> name.len() >= 8 && name[0] == 's' && name[7] == '-' && name[name.len()
            - 4] == '.' && name[name.len() - 1] == 'g',
        name.len() > 0 && name[0] != 's' ==> !is_log_name(name),
        name.len() > 0 && name.last() != 'g' ==> !is_log_name(name),
        name.len() < 8 ==> !is_log_name(name),
{
    reveal_strlit("snapbar-");
    reveal_strlit(".log");
    let start = "snapbar-"@;
    let end = ".log"@;
    let whole = start + middle + end;
    assert(whole.subrange(0, 8) =~= start);
    assert(whole.subrange(whole.len() - 4, whole.len() as int) =~= end);
    assert(has_prefix(whole, start));
    assert(has_suffix(whole, end));
    if is_log_name(name) {
        assert(name.len() >= 8);
        assert(name.subrange(0, 8)[0] == start[0]);
        assert(name.subrange(0, 8)[7] == start[7]);
        assert(name.subrange(name.len() - 4, name.len() as int)[0] == end[0]);
        assert(name.subrange(name.len() - 4, name.len() as int)[3] == end[3]);
    }
}

/// The order of names is that of a dictionary: it is total, two names before each other are
/// the same, it goes on, and the first difference decides.
pub proof fn law_names_are_ordered_like_words(
    left: Seq<char>,
    right: Seq<char>,
    start: Seq<char>,
    first: char,
    second: char,
)
    requires
        first < second,
    ensures
        name_before(left, right) || name_before(right, left),
        name_before(left, right) && name_before(right, left) ==> left == right,
        name_before(start + seq![first] + left, start + seq![second] + right),
        !name_before(start + seq![second] + right, start + seq![first] + left),
        name_before(start, start + right),
        right.len() > 0 ==> !name_before(start + right, start),
{
    lemma_names_are_ordered(left, right);
    lemma_same_names(left, right);
    lemma_first_difference(start, seq![first] + left, seq![second] + right);
    lemma_first_difference(start, seq![second] + right, seq![first] + left);
    lemma_first_difference(start, Seq::empty(), right);
    lemma_first_difference(start, right, Seq::empty());
    assert(start + seq![first] + left =~= start + (seq![first] + left));
    assert(start + seq![second] + right =~= start + (seq![second] + right));
    assert(start + Seq::<char>::empty() =~= start);
}

proof fn lemma_same_names(left: Seq<char>, right: Seq<char>)
    ensures
        name_before(left, right) && name_before(right, left) ==> left == right,
    decreases left.len(),
{
    if left.len() > 0 && right.len() > 0 && left.first() == right.first() {
        lemma_same_names(left.drop_first(), right.drop_first());
        if name_before(left, right) && name_before(right, left) {
            assert(left =~= seq![left.first()] + left.drop_first());
            assert(right =~= seq![right.first()] + right.drop_first());
        }
    } else if left.len() == 0 && right.len() == 0 {
        assert(left =~= right);
    }
}

proof fn lemma_first_difference(start: Seq<char>, left: Seq<char>, right: Seq<char>)
    ensures
        name_before(start + left, start + right) == name_before(left, right),
    decreases start.len(),
{
    if start.len() == 0 {
        assert(start + left =~= left);
        assert(start + right =~= right);
    } else {
        lemma_first_difference(start.drop_first(), left, right);
        assert((start + left).drop_first() =~= start.drop_first() + left);
        assert((start + right).drop_first() =~= start.drop_first() + right);
    }
}

/// The log files of a folder are all of its files with such a name, and nothing else.
pub proof fn law_log_files_are_those_with_such_names(names: Seq<Seq<char>>, name: Seq<char>)
    ensures
        log_names(names).contains(name) <==> names.contains(name) && is_log_name(name),
        log_names(names).len() <= names.len(),
    decreases names.len(),
{
    let list = log_names(names);
    if names.len() > 0 {
        let before = names.drop_last();
        law_log_files_are_those_with_such_names(before, name);
        assert(names =~= before.push(names.last()));
        let earlier = log_names(before);
        if names.contains(name) && is_log_name(name) {
            let k = choose|k: int| 0 <= k < names.len() && names[k] == name;
            if k < before.len() {
                assert(before[k] == name);
                let i = choose|i: int| 0 <= i < earlier.len() && earlier[i] == name;
                assert(list[i] == name);
            } else {
                assert(list[list.len() - 1] == name);
            }
        }
        if list.contains(name) {
            let i = choose|i: int| 0 <= i < list.len() && list[i] == name;
            if i < earlier.len() {
                assert(earlier[i] == name);
                let k = choose|k: int| 0 <= k < before.len() && before[k] == name;
                assert(names[k] == name);
            } else {
                assert(names[names.len() - 1] == name);
            }
        }
    }
}

/// As many files stay as are to be kept, or all where there are not so many.
pub proof fn law_so_many_files_stay(count: nat, keep: usize)
    ensures
        surplus(count, keep) <= count,
        count >= keep ==> count - surplus(count, keep) == keep,
        count <= keep ==> surplus(count, keep) == 0,
{
}

} // verus!
