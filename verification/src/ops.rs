//! The reconciliation operations' decision cores: every remote-mutating
//! workflow is reduced to a plan — which payloads to write, or which
//! documents to delete — computed from the source data and the answers to
//! the confirmation gates. The unverified shell only performs the plan,
//! action by action, aborting the remainder on the first failure.

use vstd::prelude::*;

use crate::account::{Account, AccountV, CsvRecord, ToCanonical, csv_canonical_spec};
use crate::csvio::convert_all;

verus! {

/// What a run of writes does to the remote collection, seen as the sequence
/// of its document payloads: each write appends one payload under a fresh,
/// server-assigned identifier.
pub open spec fn apply_writes(docs: Seq<AccountV>, writes: Seq<AccountV>) -> Seq<AccountV> {
    docs + writes
}

/// The payloads a confirmation gate lets through: all of them on an
/// affirmative answer, none otherwise.
pub open spec fn gate(accs: Seq<AccountV>, confirmed: bool) -> Seq<AccountV> {
    if confirmed {
        accs
    } else {
        Seq::<AccountV>::empty()
    }
}

/// The write plan of the restore operation: the backup's accounts pass the
/// single confirmation gate unchanged and in order, or the plan is empty.
pub fn restore_writes(accounts: Vec<Account>, confirmed: bool) -> (r: Vec<Account>)
    ensures
        r.deep_view() == gate(accounts.deep_view(), confirmed),
{
    if confirmed {
        accounts
    } else {
        let r: Vec<Account> = Vec::new();
        assert(r.deep_view() =~= Seq::<AccountV>::empty());
        r
    }
}

/// The write plan of the append operation: every import record is converted
/// to its canonical account, and the whole converted sequence passes the
/// single confirmation gate, or the plan is empty.
pub fn append_writes(records: &Vec<CsvRecord>, confirmed: bool) -> (r: Vec<Account>)
    requires
        forall|i: int| 0 <= i < records@.len() ==> (#[trigger] records@[i]).convertible(),
    ensures
        confirmed ==> r.deep_view().len() == records@.len() && forall|i: int|
            0 <= i < records@.len() ==> r.deep_view()[i] == csv_canonical_spec(records@[i]@),
        !confirmed ==> r.deep_view() == Seq::<AccountV>::empty(),
{
    if confirmed {
        convert_all(records)
    } else {
        let r: Vec<Account> = Vec::new();
        assert(r.deep_view() =~= Seq::<AccountV>::empty());
        r
    }
}

/// The delete plan of the delete-all operation: the listed identifiers, in
/// listed order, pass only when both confirmation gates were answered
/// affirmatively; any other combination of answers deletes nothing.
pub fn delete_all_targets(ids: Vec<String>, first: bool, second: bool) -> (r: Vec<String>)
    ensures
        first && second ==> r.deep_view() == ids.deep_view(),
        !(first && second) ==> r.deep_view() == Seq::<Seq<char>>::empty(),
{
    if first && second {
        ids
    } else {
        let r: Vec<String> = Vec::new();
        assert(r.deep_view() =~= Seq::<Seq<char>>::empty());
        r
    }
}

/// Declining a confirmation leaves the remote collection unchanged: an
/// unconfirmed gate lets no payload through, and writing nothing is the
/// identity on the collection.
pub proof fn lemma_declined_gate_is_noop(docs: Seq<AccountV>, accs: Seq<AccountV>)
    ensures
        apply_writes(docs, gate(accs, false)) == docs,
{
    assert(apply_writes(docs, gate(accs, false)) =~= docs);
}

/// Delete-All deletes only after two affirmative answers: one affirmation
/// followed by a decline — or any other combination short of two yeses —
/// targets no document.
pub proof fn lemma_single_affirmation_deletes_nothing(
    ids: Seq<Seq<char>>,
    first: bool,
    second: bool,
)
    requires
        !(first && second),
    ensures
        (if first && second {
            ids
        } else {
            Seq::<Seq<char>>::empty()
        }).len() == 0,
{
}

/// Appending is non-idempotent by design: running the confirmed append plan
/// of the same source twice appends the converted accounts twice, so those
/// records' document count doubles rather than converging.
pub proof fn lemma_append_twice_doubles(docs: Seq<AccountV>, accs: Seq<AccountV>)
    ensures
        apply_writes(apply_writes(docs, gate(accs, true)), gate(accs, true)) == docs + accs + accs,
        apply_writes(apply_writes(docs, gate(accs, true)), gate(accs, true)).len() == docs.len()
            + 2 * accs.len(),
{
}

/// Backing up and restoring preserves every payload: restoring a backup of
/// `accs` onto a collection appends exactly `accs`, field for field and in
/// order; only the server-assigned identifiers are new.
pub proof fn lemma_restore_appends_payloads(docs: Seq<AccountV>, accs: Seq<AccountV>)
    ensures
        apply_writes(docs, gate(accs, true)).len() == docs.len() + accs.len(),
        forall|i: int|
            0 <= i < accs.len() ==> apply_writes(docs, gate(accs, true))[docs.len() + i]
                == accs[i],
        forall|i: int|
            0 <= i < docs.len() ==> apply_writes(docs, gate(accs, true))[i] == docs[i],
{
}

/// A bulk loop aborts on its first failure: if only the first `k` writes of
/// a plan were performed, the collection holds the old documents followed by
/// exactly those `k` payloads — no later write happens, no rollback either.
pub proof fn lemma_abort_keeps_prefix(docs: Seq<AccountV>, writes: Seq<AccountV>, k: int)
    requires
        0 <= k <= writes.len(),
    ensures
        apply_writes(docs, writes.take(k)).len() == docs.len() + k,
        forall|i: int|
            0 <= i < k ==> apply_writes(docs, writes.take(k))[docs.len() + i] == writes[i],
        forall|i: int| 0 <= i < docs.len() ==> apply_writes(docs, writes.take(k))[i] == docs[i],
{
}

/// Where a pattern stands in a string: `pat` occurs at position `i` of `s`.
pub open spec fn pat_at(s: Seq<char>, pat: Seq<char>, i: int) -> bool {
    0 <= i && i + pat.len() <= s.len() && forall|k: int|
        0 <= k < pat.len() ==> s[i + k] == pat[k]
}

/// The first position where the pattern occurs, or nothing.
fn find_pattern(s: &str, pat: &str) -> (r: Option<usize>)
    ensures
        match r {
            Some(i) => pat_at(s@, pat@, i as int) && forall|j: int|
                0 <= j < i ==> !pat_at(s@, pat@, j),
            None => forall|j: int| !pat_at(s@, pat@, j),
        },
{
    let slen = s.unicode_len();
    let plen = pat.unicode_len();
    if plen > slen {
        return None;
    }
    let mut i: usize = 0;
    while i <= slen - plen
        invariant
            plen <= slen == s@.len(),
            plen == pat@.len(),
            0 <= i <= slen - plen + 1,
            forall|j: int| 0 <= j < i ==> !pat_at(s@, pat@, j),
        decreases slen - plen + 1 - i,
    {
        let mut k: usize = 0;
        let mut matches = true;
        while k < plen
            invariant
                plen <= slen == s@.len(),
                plen == pat@.len(),
                0 <= i <= slen - plen,
                0 <= k <= plen,
                matches ==> forall|t: int| 0 <= t < k ==> s@[i + t] == pat@[t],
                !matches ==> !pat_at(s@, pat@, i as int),
            decreases plen - k,
        {
            if s.get_char(i + k) != pat.get_char(k) {
                assert(!pat_at(s@, pat@, i as int));
                matches = false;
                k = plen;
            } else {
                k += 1;
            }
        }
        if matches {
            assert(pat_at(s@, pat@, i as int));
            return Some(i);
        }
        i += 1;
    }
    assert(forall|j: int| i <= j ==> !pat_at(s@, pat@, j));
    None
}

/// The identifier is what follows the database marker and the collection
/// separator in the absolute path: twenty characters past the first
/// occurrence of the marker.
pub open spec fn rel_id_at(s: Seq<char>, id: Seq<char>, i: int) -> bool {
    &&& pat_at(s, "(default)"@, i)
    &&& forall|j: int| 0 <= j < i ==> !pat_at(s, "(default)"@, j)
    &&& i + 20 <= s.len()
    &&& id == s.skip(i + 20)
}

/// A collection-relative identifier can be cut out of the path: the marker
/// occurs, with room for the separator behind it.
pub open spec fn has_rel_id(s: Seq<char>) -> bool {
    exists|i: int|
        #[trigger] pat_at(s, "(default)"@, i) && (forall|j: int|
            0 <= j < i ==> !pat_at(s, "(default)"@, j)) && i + 20 <= s.len()
}

/// `id` is the relative identifier the path yields: the suffix after the
/// first marker occurrence and its separator.
pub open spec fn is_rel_id(s: Seq<char>, id: Seq<char>) -> bool {
    exists|i: int| #[trigger] rel_id_at(s, id, i)
}

/// Derives the collection-relative document identifier from the remote
/// system's absolute document path, by stripping everything up to and
/// including the database marker `(default)` and the eleven characters of
/// the collection separator that follows it. Returns nothing when the path
/// has no such marker, or ends too early behind it.
pub fn doc_rel_id(path: &str) -> (r: Option<String>)
    ensures
        match r {
            Some(id) => is_rel_id(path@, id@),
            None => !has_rel_id(path@),
        },
{
    let i = match find_pattern(path, "(default)") {
        Some(i) => i,
        None => {
            assert(!has_rel_id(path@));
            return None;
        },
    };
    let n = path.unicode_len();
    if n - i < 20 {
        assert(forall|j: int|
            pat_at(path@, "(default)"@, j) && (forall|t: int|
                0 <= t < j ==> !pat_at(path@, "(default)"@, t)) ==> j == i);
        assert(!has_rel_id(path@));
        return None;
    }
    let id = path.substring_char(i + 20, n);
    let ghost w = i as int;
    let owned = id.to_owned();
    assert(owned@ =~= path@.skip(w + 20));
    assert(rel_id_at(path@, owned@, w));
    assert(is_rel_id(path@, owned@));
    Some(owned)
}

} // verus!
