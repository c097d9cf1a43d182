//! Entry lists: a written list of entries, separated and optionally ended
//! by a separator, read into the entries it denotes; and how many entries a
//! list holds.
use vstd::prelude::*;

verus! {

/// The number of entries in a list, used to size the container before any
/// entry is inserted. The entries are only counted, never read.
pub fn entry_count<T>(entries: &Vec<T>) -> (n: usize)
    ensures
        n == entries@.len(),
{
    entries.len()
}

/// One piece of a written entry list: an entry, or a separator.
pub enum ListItem<T> {
    Entry(T),
    Separator,
}

/// The list without its trailing separator, if it has one.
pub open spec fn without_trailing<T>(items: Seq<ListItem<T>>) -> Seq<ListItem<T>> {
    if items.len() > 0 && items.last() is Separator {
        items.drop_last()
    } else {
        items
    }
}

/// Entries and separators alternate, starting and ending with an entry.
pub open spec fn alternates<T>(core: Seq<ListItem<T>>) -> bool {
    &&& core.len() == 0 || core.len() % 2 == 1
    &&& forall|i: int| 0 <= i < core.len() ==> ((#[trigger] core[i]) is Entry <==> i % 2 == 0)
}

/// The entries a written list denotes: `e1, ..., en` with at most one
/// trailing separator, which must follow an entry; `None` when the list is
/// not of that form.
pub open spec fn list_entries<T>(items: Seq<ListItem<T>>) -> Option<Seq<T>> {
    let core = without_trailing(items);
    if alternates(core) && !(core.len() == 0 && items.len() > 0) {
        Some(Seq::new(((core.len() + 1) / 2) as nat, |k: int| core[2 * k]->Entry_0))
    } else {
        None
    }
}

/// Reads a written entry list into its entries, in order. A trailing
/// separator is accepted and changes nothing.
pub fn read_entry_list<T>(items: Vec<ListItem<T>>) -> (r: Option<Vec<T>>)
    ensures
        match r {
            Some(v) => list_entries(items@) == Some(v@),
            None => list_entries(items@) is None,
        },
{
    let ghost all = items@;
    let n: usize = items.len();
    let mut out: Vec<T> = Vec::new();
    let mut expect_entry: bool = true;
    for item in it: items.into_iter()
        invariant
            it.seq() == all,
            n == all.len(),
            it.index() <= n,
            expect_entry <==> it.index() % 2 == 0,
            forall|j: int| 0 <= j < it.index() ==> ((#[trigger] all[j]) is Entry <==> j % 2 == 0),
            out@.len() == (it.index() + 1) / 2,
            forall|k: int| 0 <= k < out@.len() ==> out@[k] == (#[trigger] all[2 * k])->Entry_0,
    {
        let ghost i = it.index() as int;
        match item {
            ListItem::Entry(e) => {
                if !expect_entry {
                    proof {
                        let core = without_trailing(all);
                        assert(core.len() > i);
                        assert(core[i] == all[i]);
                    }
                    return None;
                }
                out.push(e);
                expect_entry = false;
            },
            ListItem::Separator => {
                if expect_entry {
                    proof {
                        let core = without_trailing(all);
                        if i == n - 1 {
                            assert(core.len() == i);
                            if i > 0 {
                                assert(core[i - 1] == all[i - 1]);
                            }
                        } else {
                            assert(core[i] == all[i]);
                        }
                    }
                    return None;
                }
                expect_entry = true;
            },
        }
    }
    proof {
        let core = without_trailing(all);
        if n > 0 && n % 2 == 0 {
            assert(all[n - 1] is Separator);
        }
        if n % 2 == 1 {
            assert(all[n - 1] is Entry);
        }
        assert(out@ =~= Seq::new(((core.len() + 1) / 2) as nat, |k: int| core[2 * k]->Entry_0));
    }
    Some(out)
}

/// A trailing separator changes nothing: a list that ends with an entry
/// denotes the same entries with one separator added at its end.
pub proof fn law_trailing_separator<T>(items: Seq<ListItem<T>>)
    requires
        items.len() > 0,
        items.last() is Entry,
    ensures
        list_entries(items.push(ListItem::Separator)) == list_entries(items),
{
    let t = items.push(ListItem::<T>::Separator);
    assert(without_trailing(t) == items);
    assert(without_trailing(items) == items);
}

} // verus!
