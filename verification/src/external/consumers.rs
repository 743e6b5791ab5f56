//! Declaring and withdrawing consumers, apart from all history.

use super::unit::{consumer_in, consumers_in, consumers_view, ConsumerModel, ExternalConsumer};
use crate::build_stores::rows::rows_view;
use crate::text::{copy_opt, opt_text, push_text, same, texts};
use vstd::prelude::*;

verus! {

/// The place of the first consumer with a label, from place `i` on.
pub open spec fn place_labelled(list: Seq<ConsumerModel>, label: Seq<char>, i: int) -> int
    decreases list.len() - i,
{
    if i < 0 || i >= list.len() {
        list.len() as int
    } else if list[i].label == label {
        i
    } else {
        place_labelled(list, label, i + 1)
    }
}

/// Consumers with one declared: its note replaced where it is there already,
/// added at the end where it is not.
pub open spec fn associated(list: Seq<ConsumerModel>, label: Seq<char>, note: Option<Seq<char>>) -> Seq<ConsumerModel> {
    let at = place_labelled(list, label, 0);
    if at < list.len() {
        list.update(at, ConsumerModel { label: list[at].label, note })
    } else {
        list.push(ConsumerModel { label, note })
    }
}

/// Consumers without one, among the first `n`.
pub open spec fn without_label(list: Seq<ConsumerModel>, label: Seq<char>, n: int) -> Seq<ConsumerModel>
    decreases n,
{
    if n <= 0 {
        Seq::empty()
    } else if list[n - 1].label == label {
        without_label(list, label, n - 1)
    } else {
        without_label(list, label, n - 1).push(list[n - 1])
    }
}

fn find_label(list: &Vec<ExternalConsumer>, label: &str) -> (r: usize)
    ensures
        r == place_labelled(consumers_view(list@), label@, 0),
        r <= list@.len(),
{
    let ghost all = consumers_view(list@);
    let mut i: usize = 0;
    while i < list.len()
        invariant
            i <= list@.len(),
            all == consumers_view(list@),
            place_labelled(all, label@, 0) == place_labelled(all, label@, i as int),
        decreases list@.len() - i,
    {
        assert(all[i as int] == list@[i as int]@);
        if same(list[i].label.as_str(), label) {
            return i;
        }
        i += 1;
    }
    i
}

/// Declares a consumer. Declaring one twice adds nothing.
pub fn associate_consumer(list: &mut Vec<ExternalConsumer>, label: &str, note: Option<String>)
    ensures
        consumers_view(final(list)@) == associated(consumers_view(old(list)@), label@, opt_text(note)),
{
    let ghost before = consumers_view(list@);
    let ghost nm = opt_text(note);
    let at = find_label(list, label);
    if at < list.len() {
        assert(before[at as int] == list@[at as int]@);
        let c = ExternalConsumer { label: list[at].label.as_str().to_owned(), note };
        let ghost cm = c@;
        list.set(at, c);
        assert(consumers_view(list@) =~= before.update(at as int, cm));
    } else {
        let c = ExternalConsumer { label: label.to_owned(), note };
        let ghost cm = c@;
        list.push(c);
        assert(consumers_view(list@) =~= before.push(cm));
    }
}

/// Withdraws a consumer, if it is declared.
pub fn dissociate_consumer(list: &mut Vec<ExternalConsumer>, label: &str)
    ensures
        consumers_view(final(list)@) == without_label(
            consumers_view(old(list)@),
            label@,
            old(list)@.len() as int,
        ),
{
    let ghost all = consumers_view(list@);
    let mut out: Vec<ExternalConsumer> = Vec::new();
    let mut i: usize = 0;
    assert(consumers_view(out@) =~= without_label(all, label@, 0));
    while i < list.len()
        invariant
            i <= list@.len(),
            all == consumers_view(list@),
            consumers_view(out@) == without_label(all, label@, i as int),
        decreases list@.len() - i,
    {
        assert(all[i as int] == list@[i as int]@);
        if !same(list[i].label.as_str(), label) {
            let c = ExternalConsumer { label: list[i].label.as_str().to_owned(), note: copy_opt(&list[i].note) };
            let ghost cm = c@;
            let ghost prior = out@;
            out.push(c);
            assert(consumers_view(out@) =~= consumers_view(prior).push(cm));
        }
        i += 1;
    }
    *list = out;
}

/// The rows consumers are stored as: a label, and a note or nothing.
pub open spec fn consumer_rows(list: Seq<ConsumerModel>) -> Seq<Seq<Seq<char>>> {
    Seq::new(
        list.len(),
        |i: int|
            seq![
                list[i].label,
                match list[i].note {
                    Some(n) => n,
                    None => Seq::empty(),
                },
            ],
    )
}

pub fn write_consumers(list: &Vec<ExternalConsumer>) -> (r: Vec<Vec<String>>)
    ensures
        rows_view(r@) == consumer_rows(consumers_view(list@)),
{
    let ghost want = consumer_rows(consumers_view(list@));
    let mut out: Vec<Vec<String>> = Vec::new();
    let mut i: usize = 0;
    assert(rows_view(out@) =~= want.take(0));
    while i < list.len()
        invariant
            i <= list@.len(),
            want == consumer_rows(consumers_view(list@)),
            rows_view(out@) == want.take(i as int),
        decreases list@.len() - i,
    {
        assert(consumers_view(list@)[i as int] == list@[i as int]@);
        let mut row: Vec<String> = Vec::new();
        push_text(&mut row, list[i].label.as_str());
        match &list[i].note {
            Some(n) => {
                push_text(&mut row, n.as_str());
            },
            None => {
                let none = String::new();
                assert(none@ =~= Seq::<char>::empty());
                push_text(&mut row, none.as_str());
            },
        }
        assert(texts(row@) =~= want[i as int]);
        let ghost prior = out@;
        let ghost cells = row@;
        out.push(row);
        i += 1;
        assert(rows_view(out@) =~= rows_view(prior).push(texts(cells)));
        assert(rows_view(out@) =~= want.take(i as int));
    }
    assert(want.take(i as int) =~= want);
    out
}

// ---------------------------------------------------------------------
// Laws
// ---------------------------------------------------------------------

proof fn lemma_place_labelled(list: Seq<ConsumerModel>, label: Seq<char>, i: int)
    requires
        0 <= i,
    ensures
        i <= place_labelled(list, label, i) <= list.len() || (i > list.len() && place_labelled(list, label, i)
            == list.len()),
        place_labelled(list, label, i) < list.len() ==> list[place_labelled(list, label, i)].label == label,
        forall|k: int| i <= k < place_labelled(list, label, i) ==> (#[trigger] list[k]).label != label,
    decreases list.len() - i,
{
    if i < list.len() && list[i].label != label {
        lemma_place_labelled(list, label, i + 1);
    }
}

/// Declaring a consumer a second time changes nothing.
pub proof fn law_associating_twice_is_once(list: Seq<ConsumerModel>, label: Seq<char>, note: Option<Seq<char>>)
    ensures
        associated(associated(list, label, note), label, note) == associated(list, label, note),
{
    let once = associated(list, label, note);
    lemma_place_labelled(list, label, 0);
    lemma_place_labelled(once, label, 0);
    let at = place_labelled(list, label, 0);
    let again = place_labelled(once, label, 0);
    assert(once[at].label == label);
    if again < at {
        assert(once[again].label == list[again].label);
    }
    if again > at {
        assert(once[at].label != label);
    }
    assert(associated(once, label, note) =~= once);
}

/// A consumer can be told from its row: it has a label, and a note that is not
/// empty or none.
pub open spec fn consumer_stored(c: ConsumerModel) -> bool {
    c.label.len() > 0 && (c.note matches Some(n) ==> n.len() > 0)
}

/// Stored consumers read back as they were.
pub proof fn law_consumers_read_back(list: Seq<ConsumerModel>, n: int)
    requires
        forall|i: int| 0 <= i < list.len() ==> consumer_stored(#[trigger] list[i]),
        0 <= n <= list.len(),
    ensures
        consumers_in(consumer_rows(list), n) == list.take(n),
    decreases n,
{
    if n > 0 {
        law_consumers_read_back(list, n - 1);
        assert(consumer_stored(list[n - 1]));
        assert(consumer_in(consumer_rows(list)[n - 1]) == Some(list[n - 1]));
        assert(list.take(n) =~= list.take(n - 1).push(list[n - 1]));
    } else {
        assert(list.take(0) =~= Seq::<ConsumerModel>::empty());
    }
}

} // verus!
