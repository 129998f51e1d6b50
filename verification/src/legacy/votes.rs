//! The vote options that a client is offered, and the state of a vote.
use crate::legacy::messages::{emit, shown, Action, Bytes, Text, VoteKind, VoteOption};
use crate::text::{
    append, bounded, decimal, format_decimal, is_cut, lemma_is_cut, truncate,
};
use std::collections::VecDeque;
use vstd::prelude::*;

verus! {

/// The most options that a client is offered.
pub const MAX_VOTES: usize = 4096;

/// The most bytes of an option's text.
pub const MAX_LABEL: usize = 48;

/// The most bytes of a vote's description and reason.
pub const MAX_DESCRIPTION: usize = 64;

/// An option with the label that the client knows it by.
#[derive(Clone, Debug, PartialEq, Eq)]
pub struct VoteEntry {
    pub label: String,
    pub option: VoteOption,
}

impl View for VoteEntry {
    type V = (Text, VoteOption);

    open spec fn view(&self) -> (Text, VoteOption) {
        (self.label@, self.option)
    }
}

/// The vote options of a client, and the labels that it must still be told.
pub struct Votes {
    pub entries: Vec<VoteEntry>,
    pub queue: VecDeque<String>,
}

/// The options as labels and what they stand for.
pub open spec fn options(entries: Seq<VoteEntry>) -> Seq<(Text, VoteOption)> {
    entries.map_values(|e: VoteEntry| e@)
}

/// Labels as contracts speak of them.
pub open spec fn labels(queue: Seq<String>) -> Seq<Text> {
    queue.map_values(|s: String| s@)
}

impl Votes {
    pub open spec fn options(self) -> Seq<(Text, VoteOption)> {
        options(self.entries@)
    }

    pub open spec fn labels(self) -> Seq<Text> {
        labels(self.queue@)
    }

    /// No more options than a client can be offered, each with a label of its
    /// own.
    pub open spec fn valid(self) -> bool {
        options_valid(self.options())
    }
}

/// No more options than a client can be offered, each with a label of its
/// own.
pub open spec fn options_valid(list: Seq<(Text, VoteOption)>) -> bool {
    &&& list.len() <= MAX_VOTES
    &&& forall|i: int, j: int|
        0 <= i < j < list.len() ==> (#[trigger] list[i]).0 != (#[trigger] list[j]).0
}

/// The place of a label among the options, or their number.
pub open spec fn label_index(list: Seq<(Text, VoteOption)>, label: Text) -> int
    decreases list.len(),
{
    if list.len() == 0 || list[0].0 == label {
        0
    } else {
        1 + label_index(list.drop_first(), label)
    }
}

/// What a label stands for.
pub open spec fn option_of(list: Seq<(Text, VoteOption)>, label: Text) -> Option<VoteOption> {
    let i = label_index(list, label);
    if i < list.len() {
        Some(list[i].1)
    } else {
        None
    }
}

/// The options after `label` was made to stand for `option`.
pub open spec fn with_option(
    list: Seq<(Text, VoteOption)>,
    label: Text,
    option: VoteOption,
) -> Seq<(Text, VoteOption)> {
    let i = label_index(list, label);
    if i < list.len() {
        list.update(i, (label, option))
    } else {
        list.push((label, option))
    }
}

/// The label of the next option: its number, and the bounded text.
pub open spec fn next_label(count: nat, text: Text) -> Text {
    decimal(count + 1) + " "@ + bounded(text, MAX_LABEL as nat)
}

/// The options and the labels to tell after one option was added. Options
/// beyond the limit are dropped.
pub open spec fn added(
    list: Seq<(Text, VoteOption)>,
    queue: Seq<Text>,
    text: Text,
    option: VoteOption,
) -> (Seq<(Text, VoteOption)>, Seq<Text>) {
    if list.len() >= MAX_VOTES {
        (list, queue)
    } else {
        let label = next_label(list.len(), text);
        (with_option(list, label, option), queue.push(label))
    }
}

/// The text of an option: its category and its name.
pub open spec fn option_text(category: Text, name: Text) -> Text {
    category + ": "@ + name
}

/// An option of a category.
#[derive(Clone, Debug, PartialEq, Eq)]
pub struct NamedOption {
    pub name: String,
    pub key: u64,
}

/// A category of options.
#[derive(Clone, Debug, PartialEq, Eq)]
pub struct Category {
    pub name: String,
    pub options: Vec<NamedOption>,
}

/// The options and the labels after the options of a category were added.
pub open spec fn category_added(
    list: Seq<(Text, VoteOption)>,
    queue: Seq<Text>,
    kind: VoteKind,
    category: Text,
    more: Seq<NamedOption>,
) -> (Seq<(Text, VoteOption)>, Seq<Text>)
    decreases more.len(),
{
    if more.len() == 0 {
        (list, queue)
    } else {
        let (list, queue) = category_added(list, queue, kind, category, more.drop_last());
        added(
            list,
            queue,
            option_text(category, more.last().name@),
            VoteOption { kind, key: more.last().key },
        )
    }
}

/// The options and the labels after all categories were added.
pub open spec fn loaded(
    list: Seq<(Text, VoteOption)>,
    queue: Seq<Text>,
    kind: VoteKind,
    categories: Seq<Category>,
) -> (Seq<(Text, VoteOption)>, Seq<Text>)
    decreases categories.len(),
{
    if categories.len() == 0 {
        (list, queue)
    } else {
        let (list, queue) = loaded(list, queue, kind, categories.drop_last());
        category_added(list, queue, kind, categories.last().name@, categories.last().options@)
    }
}

/// The options that are not of the given kind.
pub open spec fn without_kind(list: Seq<(Text, VoteOption)>, kind: VoteKind) -> Seq<
    (Text, VoteOption),
>
    decreases list.len(),
{
    if list.len() == 0 {
        seq![]
    } else if list.last().1.kind != kind {
        without_kind(list.drop_last(), kind).push(list.last())
    } else {
        without_kind(list.drop_last(), kind)
    }
}

impl Votes {
    /// No options.
    pub fn new() -> (r: Self)
        ensures
            r.options() == Seq::<(Text, VoteOption)>::empty(),
            r.labels() == Seq::<Text>::empty(),
            r.valid(),
    {
        let r = Votes { entries: Vec::new(), queue: VecDeque::new() };
        assert(r.options() =~= Seq::<(Text, VoteOption)>::empty());
        assert(r.labels() =~= Seq::<Text>::empty());
        r
    }

    fn index(&self, label: &str) -> (r: usize)
        ensures
            r == label_index(self.options(), label@),
            r <= self.entries.len(),
    {
        let ghost list = self.options();
        let wanted = label.to_owned();
        let mut i: usize = 0;
        assert(list.skip(0) =~= list);
        while i < self.entries.len()
            invariant
                i <= self.entries.len(),
                list == self.options(),
                wanted@ == label@,
                label_index(list, label@) == i + label_index(list.skip(i as int), label@),
            decreases self.entries.len() - i,
        {
            assert(list.skip(i as int)[0] == self.entries@[i as int]@);
            assert(list.skip(i as int).drop_first() =~= list.skip(i + 1));
            if self.entries[i].label == wanted {
                return i;
            }
            i += 1;
        }
        i
    }

    /// What a label stands for.
    pub fn find(&self, label: &str) -> (r: Option<VoteOption>)
        ensures
            r == option_of(self.options(), label@),
    {
        let i = self.index(label);
        if i < self.entries.len() {
            Some(self.entries[i].option)
        } else {
            None
        }
    }

    /// Adds an option under a numbered label.
    fn insert(&mut self, text: &str, option: VoteOption)
        ensures
            (final(self).options(), final(self).labels()) == added(
                old(self).options(),
                old(self).labels(),
                text@,
                option,
            ),
    {
        if self.entries.len() >= MAX_VOTES {
            return;
        }
        let mut label = format_decimal(self.entries.len() as u64 + 1);
        append(&mut label, " ");
        append(&mut label, truncate(text, MAX_LABEL).as_str());
        assert(label@ == next_label(self.options().len(), text@));
        let i = self.index(label.as_str());
        let entry = VoteEntry { label: label.clone(), option };
        if i < self.entries.len() {
            self.entries.set(i, entry);
        } else {
            self.entries.push(entry);
        }
        self.queue.push_back(label);
        assert(self.options() =~= with_option(old(self).options(), label@, option));
        assert(self.labels() =~= old(self).labels().push(label@));
    }

    /// Adds all options of the given categories.
    pub fn load(&mut self, kind: VoteKind, categories: &Vec<Category>)
        ensures
            (final(self).options(), final(self).labels()) == loaded(
                old(self).options(),
                old(self).labels(),
                kind,
                categories@,
            ),
            old(self).valid() ==> final(self).valid(),
    {
        proof {
            if self.valid() {
                labels_stay_distinct(self.options(), self.labels(), kind, categories@);
            }
        }
        let mut i: usize = 0;
        while i < categories.len()
            invariant
                i <= categories.len(),
                (self.options(), self.labels()) == loaded(
                    old(self).options(),
                    old(self).labels(),
                    kind,
                    categories@.take(i as int),
                ),
            decreases categories.len() - i,
        {
            let category = &categories[i];
            let ghost (list, queue) = (self.options(), self.labels());
            let mut j: usize = 0;
            while j < category.options.len()
                invariant
                    j <= category.options.len(),
                    (self.options(), self.labels()) == category_added(
                        list,
                        queue,
                        kind,
                        category.name@,
                        category.options@.take(j as int),
                    ),
                decreases category.options.len() - j,
            {
                let option = &category.options[j];
                let mut text = category.name.clone();
                append(&mut text, ": ");
                append(&mut text, option.name.as_str());
                self.insert(text.as_str(), VoteOption { kind, key: option.key });
                assert(category.options@.take(j + 1).drop_last() =~= category.options@.take(
                    j as int,
                ));
                j += 1;
            }
            assert(category.options@.take(j as int) =~= category.options@);
            assert(categories@.take(i + 1).drop_last() =~= categories@.take(i as int));
            i += 1;
        }
        assert(categories@.take(i as int) =~= categories@);
    }

    /// Removes all options of a kind. The client is told the others anew.
    pub fn reset(&mut self, kind: VoteKind)
        ensures
            final(self).options() == without_kind(old(self).options(), kind),
            final(self).labels() == without_kind(old(self).options(), kind).map_values(
                |o: (Text, VoteOption)| o.0,
            ),
            old(self).valid() ==> final(self).valid(),
    {
        proof {
            if self.valid() {
                labels_stay_distinct_after_reset(self.options(), kind);
            }
        }
        let ghost list = self.options();
        let mut entries: Vec<VoteEntry> = Vec::new();
        let mut queue: VecDeque<String> = VecDeque::new();
        let mut i: usize = 0;
        assert(options(entries@) =~= without_kind(list.take(0), kind));
        assert(labels(queue@) =~= without_kind(list.take(0), kind).map_values(
            |o: (Text, VoteOption)| o.0,
        ));
        while i < self.entries.len()
            invariant
                i <= self.entries.len(),
                list == self.options(),
                options(entries@) == without_kind(list.take(i as int), kind),
                labels(queue@) == without_kind(list.take(i as int), kind).map_values(
                    |o: (Text, VoteOption)| o.0,
                ),
            decreases self.entries.len() - i,
        {
            let entry = &self.entries[i];
            let ghost (before, told) = (entries@, queue@);
            assert(list.take(i + 1).drop_last() =~= list.take(i as int));
            if entry.option.kind != kind {
                entries.push(VoteEntry { label: entry.label.clone(), option: entry.option });
                queue.push_back(entry.label.clone());
                assert(options(entries@) =~= options(before).push(entry@));
                assert(labels(queue@) =~= labels(told).push(entry@.0));
                assert(labels(queue@) =~= without_kind(list.take(i + 1), kind).map_values(
                    |o: (Text, VoteOption)| o.0,
                ));
            }
            i += 1;
        }
        assert(list.take(i as int) =~= list);
        self.entries = entries;
        self.queue = queue;
    }

    /// Takes up to `limit` labels off the queue and tells the client of them.
    /// Returns whether more are waiting.
    pub fn tell(&mut self, limit: usize, out: &mut Vec<Action<String, Vec<u8>>>) -> (more: bool)
        ensures
            ({
                let n = if old(self).labels().len() < limit {
                    old(self).labels().len() as int
                } else {
                    limit as int
                };
                &&& shown(final(out)@) == shown(old(out)@) + old(self).labels().take(n).map_values(
                    |label: Text| Action::<Text, Bytes>::VoteOptionAdd { description: label },
                )
                &&& final(self).labels() == old(self).labels().skip(n)
                &&& more == (old(self).labels().len() > limit)
            }),
            final(self).entries == old(self).entries,
            old(self).valid() ==> final(self).valid(),
    {
        let ghost all = self.labels();
        let ghost line = |label: Text| Action::<Text, Bytes>::VoteOptionAdd { description: label };
        let mut n: usize = 0;
        assert(shown(out@) =~= shown(old(out)@) + all.take(0).map_values(line));
        assert(all.skip(0) =~= all);
        while n < limit && self.queue.len() > 0
            invariant
                n <= limit,
                n <= all.len(),
                line == (|label: Text| Action::<Text, Bytes>::VoteOptionAdd { description: label }),
                self.entries == old(self).entries,
                self.labels() == all.skip(n as int),
                shown(out@) == shown(old(out)@) + all.take(n as int).map_values(line),
            decreases limit - n,
        {
            let ghost before = self.queue@;
            assert(labels(before) == all.skip(n as int));
            if let Some(label) = self.queue.pop_front() {
                assert(label@ == labels(before)[0]);
                assert(label@ == all[n as int]);
                assert(self.labels() =~= labels(before).skip(1));
                emit(out, Action::VoteOptionAdd { description: label });
                assert(shown(out@) =~= shown(old(out)@) + all.take(n + 1).map_values(line));
                assert(all.skip(n as int).skip(1) =~= all.skip(n + 1));
            }
            n += 1;
        }
        self.queue.len() > 0
    }
}

/// What is being voted on.
#[derive(Clone, Debug, PartialEq, Eq)]
pub enum VoteSubject {
    MapVote { name: String },
    MiscVote { name: String },
    Kick { name: String, reason: String },
    Spectate { name: String, reason: String },
    RandomUnfinishedMap,
}

/// A running vote.
#[derive(Clone, Debug, PartialEq, Eq)]
pub struct VoteState {
    pub subject: VoteSubject,
    pub remaining_secs: u64,
    pub allowed_to_vote_count: u64,
    pub yes_votes: u64,
    pub no_votes: u64,
}

/// The description and the reason of a vote.
pub open spec fn subject_text(subject: VoteSubject) -> (Text, Text) {
    match subject {
        VoteSubject::MapVote { name } => ("Map: "@ + name@, ""@),
        VoteSubject::MiscVote { name } => (name@, ""@),
        VoteSubject::Kick { name, reason } => ("Kick "@ + name@, reason@),
        VoteSubject::Spectate { name, reason } => ("Spectate "@ + name@, reason@),
        VoteSubject::RandomUnfinishedMap => ("Random unfinished map"@, ""@),
    }
}

/// A count of votes, at most 64.
pub open spec fn count_shown(n: u64) -> int {
    if n > 64 {
        64
    } else {
        n as int
    }
}

/// The remaining time in seconds, from 1 to 60.
pub open spec fn timeout_shown(secs: u64) -> i32 {
    if secs < 1 {
        1
    } else if secs > 60 {
        60
    } else {
        secs as i32
    }
}

/// The messages that show the state of a vote, or that there is none.
pub open spec fn vote_messages(vote: Option<VoteState>) -> Seq<Action<Text, Bytes>> {
    match vote {
        None => seq![Action::VoteSet { timeout: 0, description: ""@, reason: ""@ }],
        Some(vote) => {
            let (description, reason) = subject_text(vote.subject);
            let total = count_shown(vote.allowed_to_vote_count);
            let yes = count_shown(vote.yes_votes);
            let no = count_shown(vote.no_votes);
            seq![
                Action::VoteSet {
                    timeout: timeout_shown(vote.remaining_secs),
                    description: bounded(description, MAX_DESCRIPTION as nat),
                    reason: bounded(reason, MAX_DESCRIPTION as nat),
                },
                Action::VoteStatus {
                    yes: yes as i32,
                    no: no as i32,
                    pass: (if total - yes - no > 0 {
                        total - yes - no
                    } else {
                        0
                    }) as i32,
                    total: total as i32,
                },
            ]
        },
    }
}

fn count(n: u64) -> (r: i32)
    ensures
        r == count_shown(n),
        0 <= r <= 64,
{
    if n > 64 {
        64
    } else {
        n as i32
    }
}

fn prefixed(prefix: &str, name: &String) -> (r: String)
    ensures
        r@ == prefix@ + name@,
{
    let mut r = prefix.to_owned();
    append(&mut r, name.as_str());
    r
}

/// Shows the state of a vote.
pub fn state(vote: &Option<VoteState>, out: &mut Vec<Action<String, Vec<u8>>>)
    ensures
        shown(final(out)@) == shown(old(out)@) + vote_messages(*vote),
{
    let vote_state = match vote {
        None => {
            emit(
                out,
                Action::VoteSet {
                    timeout: 0,
                    description: "".to_owned(),
                    reason: "".to_owned(),
                },
            );
            assert(shown(out@) =~= shown(old(out)@) + vote_messages(*vote));
            return;
        },
        Some(vote_state) => vote_state,
    };
    let (description, reason) = match &vote_state.subject {
        VoteSubject::MapVote { name } => (prefixed("Map: ", name), "".to_owned()),
        VoteSubject::MiscVote { name } => (name.clone(), "".to_owned()),
        VoteSubject::Kick { name, reason } => (prefixed("Kick ", name), reason.clone()),
        VoteSubject::Spectate { name, reason } => (prefixed("Spectate ", name), reason.clone()),
        VoteSubject::RandomUnfinishedMap => ("Random unfinished map".to_owned(), "".to_owned()),
    };
    let timeout: i32 = if vote_state.remaining_secs < 1 {
        1
    } else if vote_state.remaining_secs > 60 {
        60
    } else {
        vote_state.remaining_secs as i32
    };
    emit(
        out,
        Action::VoteSet {
            timeout,
            description: truncate(description.as_str(), MAX_DESCRIPTION),
            reason: truncate(reason.as_str(), MAX_DESCRIPTION),
        },
    );
    let total: i32 = count(vote_state.allowed_to_vote_count);
    let yes: i32 = count(vote_state.yes_votes);
    let no: i32 = count(vote_state.no_votes);
    let pass: i32 = if total - yes - no > 0 {
        total - yes - no
    } else {
        0
    };
    emit(out, Action::VoteStatus { yes, no, pass, total });
    assert(shown(out@) =~= shown(old(out)@) + vote_messages(*vote));
}

pub(crate) proof fn lemma_label_index(list: Seq<(Text, VoteOption)>, label: Text)
    ensures
        0 <= label_index(list, label) <= list.len(),
        label_index(list, label) < list.len() ==> list[label_index(list, label)].0 == label,
        forall|i: int|
            0 <= i < label_index(list, label) ==> (#[trigger] list[i]).0 != label,
    decreases list.len(),
{
    if list.len() > 0 && list[0].0 != label {
        lemma_label_index(list.drop_first(), label);
        assert forall|i: int| 0 <= i < label_index(list, label) implies (#[trigger] list[i]).0
            != label by {
            if i > 0 {
                assert(list.drop_first()[i - 1] == list[i]);
            }
        }
    }
}

/// An option that was added can be found under the label that the client is
/// told.
pub proof fn added_option_is_found(
    list: Seq<(Text, VoteOption)>,
    queue: Seq<Text>,
    text: Text,
    option: VoteOption,
)
    requires
        list.len() < MAX_VOTES,
    ensures
        ({
            let (after, told) = added(list, queue, text, option);
            told.last() == next_label(list.len(), text) && option_of(after, told.last()) == Some(
                option,
            )
        }),
{
    let label = next_label(list.len(), text);
    let after = with_option(list, label, option);
    let i = label_index(list, label);
    lemma_label_index(list, label);
    lemma_label_index(after, label);
    let j = label_index(after, label);
    assert(after[i] == (label, option));
    if j < i {
        assert(after[j] == list[j]);
    }
    if i < j {
        assert(after[i].0 != label);
    }
}

proof fn lemma_category_labels(
    list: Seq<(Text, VoteOption)>,
    queue: Seq<Text>,
    kind: VoteKind,
    category: Text,
    more: Seq<NamedOption>,
)
    requires
        options_valid(list),
    ensures
        options_valid(category_added(list, queue, kind, category, more).0),
    decreases more.len(),
{
    if more.len() > 0 {
        lemma_category_labels(list, queue, kind, category, more.drop_last());
        let (head, told) = category_added(list, queue, kind, category, more.drop_last());
        lemma_label_index(
            head,
            next_label(head.len(), option_text(category, more.last().name@)),
        );
    }
}

/// Whatever options are loaded, they never exceed the limit, and no two have
/// the same label.
pub proof fn labels_stay_distinct(
    list: Seq<(Text, VoteOption)>,
    queue: Seq<Text>,
    kind: VoteKind,
    categories: Seq<Category>,
)
    requires
        options_valid(list),
    ensures
        options_valid(loaded(list, queue, kind, categories).0),
    decreases categories.len(),
{
    if categories.len() > 0 {
        labels_stay_distinct(list, queue, kind, categories.drop_last());
        let (list, queue) = loaded(list, queue, kind, categories.drop_last());
        lemma_category_labels(
            list,
            queue,
            kind,
            categories.last().name@,
            categories.last().options@,
        );
    }
}

/// A reset leaves no two options with the same label.
pub proof fn labels_stay_distinct_after_reset(list: Seq<(Text, VoteOption)>, kind: VoteKind)
    requires
        options_valid(list),
    ensures
        options_valid(without_kind(list, kind)),
    decreases list.len(),
{
    if list.len() > 0 {
        let head = list.drop_last();
        let before = without_kind(head, kind);
        labels_stay_distinct_after_reset(head, kind);
        reset_removes_one_kind(head, kind);
        assert forall|i: int| 0 <= i < before.len() implies (#[trigger] before[i]).0
            != list.last().0 by {
            assert(before.contains(before[i]));
            assert(head.contains(before[i]));
            let j = choose|j: int| 0 <= j < head.len() && head[j] == before[i];
            assert(list[j].0 != list[list.len() - 1].0);
        }
    }
}

/// A reset removes exactly the options of its kind.
pub proof fn reset_removes_one_kind(list: Seq<(Text, VoteOption)>, kind: VoteKind)
    ensures
        without_kind(list, kind).len() <= list.len(),
        forall|o: (Text, VoteOption)| #[trigger]
            without_kind(list, kind).contains(o) <==> list.contains(o) && o.1.kind != kind,
    decreases list.len(),
{
    let kept = without_kind(list, kind);
    if list.len() > 0 {
        let head = list.drop_last();
        reset_removes_one_kind(head, kind);
        let before = without_kind(head, kind);
        assert forall|o: (Text, VoteOption)| #[trigger] kept.contains(o) <==> list.contains(o)
            && o.1.kind != kind by {
            assert(before.contains(o) <==> head.contains(o) && o.1.kind != kind);
            if kept.contains(o) {
                let i = choose|i: int| 0 <= i < kept.len() && kept[i] == o;
                if i < before.len() {
                    assert(before[i] == o);
                    let j = choose|j: int| 0 <= j < head.len() && head[j] == o;
                    assert(list[j] == o);
                } else {
                    assert(list[list.len() - 1] == o);
                }
            }
            if list.contains(o) && o.1.kind != kind {
                let j = choose|j: int| 0 <= j < list.len() && list[j] == o;
                if j < head.len() {
                    assert(head[j] == o);
                    let i = choose|i: int| 0 <= i < before.len() && before[i] == o;
                    assert(kept[i] == o);
                } else {
                    assert(kept[kept.len() - 1] == o);
                }
            }
        }
    }
}

/// The description and the reason of a vote take at most 64 bytes each.
pub proof fn vote_texts_are_bounded(subject: VoteSubject)
    ensures
        vstd::utf8::encode_utf8(bounded(subject_text(subject).0, MAX_DESCRIPTION as nat)).len()
            <= MAX_DESCRIPTION,
        vstd::utf8::encode_utf8(bounded(subject_text(subject).1, MAX_DESCRIPTION as nat)).len()
            <= MAX_DESCRIPTION,
{
    crate::text::bounded_text_fits(subject_text(subject).0, MAX_DESCRIPTION as nat);
    crate::text::bounded_text_fits(subject_text(subject).1, MAX_DESCRIPTION as nat);
}

proof fn lemma_options(entries: Seq<VoteEntry>)
    ensures
        options(entries).len() == entries.len(),
        forall|i: int|
            0 <= i < entries.len() ==> #[trigger] options(entries)[i] == (
                entries[i].label@,
                entries[i].option,
            ),
{
}

proof fn lemma_labels(queue: Seq<String>)
    ensures
        labels(queue).len() == queue.len(),
        forall|i: int| 0 <= i < queue.len() ==> #[trigger] labels(queue)[i] == queue[i]@,
{
}

/// An option that is loaded is offered under a label of its own: its number
/// among the options, and its category and name cut to 48 bytes. The label
/// stands for the kind and the key of that option, the client is still to be
/// told it, and the options before it stay. From 4096 options on there is no
/// more room.
pub proof fn loaded_option_is_offered(
    v: &mut Votes,
    kind: VoteKind,
    category: Category,
    option: NamedOption,
    categories: Vec<Category>,
    number: String,
)
    requires
        categories@ == seq![category],
        category.options@ == seq![option],
        old(v).valid(),
        call_ensures(format_decimal, ((old(v).entries@.len() + 1) as u64,), number),
        call_ensures(Votes::load, (v, kind, &categories), ()),
    ensures
        old(v).entries@.len() == 4096 ==> final(v).options() == old(v).options()
            && final(v).labels() == old(v).labels(),
        old(v).entries@.len() < 4096 ==> {
            let n = old(v).queue@.len() as int;
            let text = category.name@ + ": "@ + option.name@;
            let label = final(v).queue@.last()@;
            &&& final(v).queue@.len() == n + 1
            &&& forall|i: int|
                0 <= i < n ==> (#[trigger] final(v).queue@[i])@ == old(v).queue@[i]@
            &&& label.len() > number@.len()
            &&& label.take(number@.len() as int) == number@
            &&& label[number@.len() as int] == ' '
            &&& is_cut(text, 48, label.skip((number@.len() + 1) as int))
            &&& exists|i: int|
                {
                    &&& 0 <= i < final(v).entries@.len()
                    &&& (#[trigger] final(v).entries@[i]).label@ == label
                    &&& final(v).entries@[i].option == (VoteOption { kind, key: option.key })
                }
            &&& forall|i: int|
                0 <= i < old(v).entries@.len() && (#[trigger] old(v).entries@[i]).label@ != label
                    ==> final(v).entries@[i].label@ == old(v).entries@[i].label@
                    && final(v).entries@[i].option == old(v).entries@[i].option
        },
{
    reveal_with_fuel(loaded, 2);
    reveal_with_fuel(category_added, 2);
    assert(categories@.drop_last() =~= seq![]);
    assert(category.options@.drop_last() =~= seq![]);
    let list = old(v).options();
    let text = option_text(category.name@, option.name@);
    lemma_options(old(v).entries@);
    lemma_options(final(v).entries@);
    lemma_labels(old(v).queue@);
    lemma_labels(final(v).queue@);
    if old(v).entries@.len() < 4096 {
        let label = next_label(list.len(), text);
        lemma_is_cut(text, 48);
        reveal_strlit(" ");
        let cut = bounded(text, 48);
        assert(label == number@ + " "@ + cut);
        assert(label.take(number@.len() as int) =~= number@);
        assert(label.skip((number@.len() + 1) as int) =~= cut);
        lemma_label_index(list, label);
        let at = label_index(list, label);
        assert(final(v).options()[at] == (label, VoteOption { kind, key: option.key }));
        assert(final(v).entries@[at].label@ == label);
        assert(final(v).labels() == old(v).labels().push(label));
        assert(final(v).labels()[old(v).queue@.len() as int] == label);
        assert forall|i: int| 0 <= i < old(v).queue@.len() implies (
        #[trigger] final(v).queue@[i])@ == old(v).queue@[i]@ by {
            assert(final(v).labels()[i] == old(v).labels()[i]);
        }
        assert forall|i: int|
            0 <= i < old(v).entries@.len() && (#[trigger] old(v).entries@[i]).label@
                != label implies final(v).entries@[i].label@ == old(v).entries@[i].label@
            && final(v).entries@[i].option == old(v).entries@[i].option by {
            assert(list[i].0 != label);
            assert(final(v).options()[i] == list[i]);
        }
    }
}

proof fn lemma_category_join(
    list: Seq<(Text, VoteOption)>,
    queue: Seq<Text>,
    kind: VoteKind,
    category: Text,
    a: Seq<NamedOption>,
    b: Seq<NamedOption>,
)
    ensures
        ({
            let (list2, queue2) = category_added(list, queue, kind, category, a);
            category_added(list, queue, kind, category, a + b) == category_added(
                list2,
                queue2,
                kind,
                category,
                b,
            )
        }),
    decreases b.len(),
{
    if b.len() == 0 {
        assert(a + b =~= a);
    } else {
        lemma_category_join(list, queue, kind, category, a, b.drop_last());
        assert((a + b).drop_last() =~= a + b.drop_last());
    }
}

proof fn lemma_loaded_join(
    list: Seq<(Text, VoteOption)>,
    queue: Seq<Text>,
    kind: VoteKind,
    a: Seq<Category>,
    b: Seq<Category>,
)
    ensures
        ({
            let (list2, queue2) = loaded(list, queue, kind, a);
            loaded(list, queue, kind, a + b) == loaded(list2, queue2, kind, b)
        }),
    decreases b.len(),
{
    if b.len() == 0 {
        assert(a + b =~= a);
    } else {
        lemma_loaded_join(list, queue, kind, a, b.drop_last());
        assert((a + b).drop_last() =~= a + b.drop_last());
    }
}

/// Loading categories one after the other is the same as loading them
/// together.
pub proof fn categories_are_loaded_in_order(
    kind: VoteKind,
    first: Vec<Category>,
    second: Vec<Category>,
    all: Vec<Category>,
    a: &mut Votes,
    b: &mut Votes,
    c: &mut Votes,
)
    requires
        all@ == first@ + second@,
        call_ensures(Votes::load, (a, kind, &first), ()),
        call_ensures(Votes::load, (b, kind, &second), ()),
        call_ensures(Votes::load, (c, kind, &all), ()),
        old(b).options() == final(a).options() && old(b).labels() == final(a).labels(),
        old(c).options() == old(a).options() && old(c).labels() == old(a).labels(),
    ensures
        final(c).options() == final(b).options(),
        final(c).labels() == final(b).labels(),
{
    lemma_loaded_join(old(a).options(), old(a).labels(), kind, first@, second@);
}

/// Loading the options of a category in two parts is the same as loading them
/// together.
pub proof fn options_are_loaded_in_order(
    kind: VoteKind,
    first: Category,
    second: Category,
    whole: Category,
    first_list: Vec<Category>,
    second_list: Vec<Category>,
    whole_list: Vec<Category>,
    a: &mut Votes,
    b: &mut Votes,
    c: &mut Votes,
)
    requires
        whole.name@ == first.name@ && whole.name@ == second.name@,
        whole.options@ == first.options@ + second.options@,
        first_list@ == seq![first] && second_list@ == seq![second] && whole_list@ == seq![whole],
        call_ensures(Votes::load, (a, kind, &first_list), ()),
        call_ensures(Votes::load, (b, kind, &second_list), ()),
        call_ensures(Votes::load, (c, kind, &whole_list), ()),
        old(b).options() == final(a).options() && old(b).labels() == final(a).labels(),
        old(c).options() == old(a).options() && old(c).labels() == old(a).labels(),
    ensures
        final(c).options() == final(b).options(),
        final(c).labels() == final(b).labels(),
{
    reveal_with_fuel(loaded, 2);
    assert(first_list@.drop_last() =~= seq![]);
    assert(second_list@.drop_last() =~= seq![]);
    assert(whole_list@.drop_last() =~= seq![]);
    lemma_category_join(
        old(a).options(),
        old(a).labels(),
        kind,
        whole.name@,
        first.options@,
        second.options@,
    );
}

/// The options of other kinds than the given one, in their order.
pub open spec fn of_other_kinds(list: Seq<(Text, VoteOption)>, kind: VoteKind) -> Seq<
    (Text, VoteOption),
> {
    list.filter(|o: (Text, VoteOption)| o.1.kind != kind)
}

proof fn lemma_without_kind(list: Seq<(Text, VoteOption)>, kind: VoteKind)
    ensures
        without_kind(list, kind) == of_other_kinds(list, kind),
    decreases list.len(),
{
    reveal(Seq::filter);
    if list.len() > 0 {
        lemma_without_kind(list.drop_last(), kind);
    }
}

/// A reset removes the options of its kind and keeps the others in their
/// order. Exactly the labels of those that stay are to be told again.
pub proof fn reset_keeps_the_other_kinds(v: &mut Votes, kind: VoteKind)
    requires
        call_ensures(Votes::reset, (v, kind), ()),
    ensures
        final(v).options() == of_other_kinds(old(v).options(), kind),
        final(v).queue@.len() == final(v).entries@.len(),
        forall|i: int|
            0 <= i < final(v).queue@.len() ==> (#[trigger] final(v).queue@[i])@
                == final(v).entries@[i].label@,
        forall|i: int|
            0 <= i < final(v).entries@.len() ==> (#[trigger] final(v).entries@[i]).option.kind
                != kind,
{
    lemma_without_kind(old(v).options(), kind);
    lemma_options(final(v).entries@);
    lemma_labels(final(v).queue@);
    reset_removes_one_kind(old(v).options(), kind);
    assert(final(v).labels().len() == final(v).options().len());
    assert forall|i: int| 0 <= i < final(v).queue@.len() implies (#[trigger] final(v).queue@[i])@
        == final(v).entries@[i].label@ by {
        assert(final(v).labels()[i] == final(v).options()[i].0);
    }
    assert forall|i: int| 0 <= i < final(v).entries@.len() implies (
    #[trigger] final(v).entries@[i]).option.kind != kind by {
        let o = final(v).options()[i];
        assert(without_kind(old(v).options(), kind).contains(o));
    }
}

/// A label stands for the option that it was given to.
pub proof fn label_finds_its_option(v: Votes, label: &str, at: int, r: Option<VoteOption>)
    requires
        v.valid(),
        call_ensures(Votes::find, (&v, label), r),
    ensures
        0 <= at < v.entries@.len() && v.entries@[at].label@ == label@ ==> r == Some(
            v.entries@[at].option,
        ),
        r is Some ==> exists|i: int|
            0 <= i < v.entries@.len() && (#[trigger] v.entries@[i]).label@ == label@,
{
    let list = v.options();
    lemma_options(v.entries@);
    lemma_label_index(list, label@);
    let found = label_index(list, label@);
    if 0 <= at < v.entries@.len() && v.entries@[at].label@ == label@ {
        assert(list[at].0 == label@);
        if found < at {
            assert(list[found].0 != list[at].0);
        }
    }
    if r is Some {
        assert(v.entries@[found].label@ == label@);
    }
}

/// Labels are told in the order in which they wait, as many as allowed, and
/// the others go on waiting.
pub proof fn labels_are_told_in_order(
    v: &mut Votes,
    limit: usize,
    out: &mut Vec<Action<String, Vec<u8>>>,
    more: bool,
)
    requires
        call_ensures(Votes::tell, (v, limit, out), more),
    ensures
        ({
            let waiting = old(v).queue@;
            let n = old(out)@.len();
            let told = final(out)@.len() - n;
            &&& told <= limit && told <= waiting.len()
            &&& told == limit || told == waiting.len()
            &&& forall|i: int|
                0 <= i < told ==> (#[trigger] final(out)@[n + i] matches Action::VoteOptionAdd {
                    description,
                } && description@ == waiting[i]@)
            &&& final(v).queue@.len() == waiting.len() - told
            &&& forall|i: int|
                0 <= i < final(v).queue@.len() ==> (#[trigger] final(v).queue@[i])@ == waiting[told
                    + i]@
            &&& more <==> final(v).queue@.len() > 0
            &&& final(v).entries == old(v).entries
        }),
{
    let waiting = old(v).labels();
    lemma_labels(old(v).queue@);
    lemma_labels(final(v).queue@);
    let n = old(out)@.len();
    let count = if waiting.len() < limit {
        waiting.len() as int
    } else {
        limit as int
    };
    assert(shown(final(out)@).len() == final(out)@.len());
    assert(shown(old(out)@).len() == n);
    assert(final(out)@.len() == n + count);
    assert forall|i: int| 0 <= i < count implies (
    #[trigger] final(out)@[n + i] matches Action::VoteOptionAdd { description } && description@
        == old(v).queue@[i]@) by {
        assert(shown(final(out)@)[n + i] == final(out)@[n + i]@);
        assert(waiting.take(count)[i] == waiting[i]);
    }
    assert forall|i: int| 0 <= i < final(v).queue@.len() implies (#[trigger] final(v).queue@[i])@
        == old(v).queue@[count + i]@ by {
        assert(final(v).labels()[i] == waiting[count + i]);
    }
}

} // verus!
