//! Ahead-of-time processing of the database: baking parsed note metadata into
//! a table, so the runtime reads it instead of re-parsing note strings.
use vstd::prelude::*;

use crate::asset::{present, BakedRecordNotes, Table};
use crate::data::{HasId, HasNote};
use crate::notes::registry::{sorted_by_tag, NoteBaker};
use crate::notes::tokens::{tokenize, NoteTokens};

verus! {

/// `r` is a possible result of `baker.bake(tokens, call)`: sorted by tag, each
/// entry produced by a captured parser, and every captured parser either
/// represented or yielding nothing.
pub open spec fn bake_outcome<P, C: Fn(&P, &NoteTokens) -> Option<Vec<u8>>>(
    baker: &NoteBaker<P>,
    tokens: &NoteTokens,
    call: C,
    r: Seq<(String, Vec<u8>)>,
) -> bool {
    &&& sorted_by_tag(r)
    &&& forall|k: int| 0 <= k < r.len() ==> #[trigger] baker.baked_by_parser(tokens, call, r[k])
    &&& forall|i: int|
        0 <= i < baker.parsers_view().len() ==> (exists|k: int|
            0 <= k < r.len() && r[k].0@ == (#[trigger] baker.parsers_view()[i]).0) || call.ensures(
            (&baker.parsers_view()[i].1, tokens),
            None::<Vec<u8>>,
        )
}

/// `r` is a possible result of baking the note text `note`.
pub open spec fn baked_note_of<P, C: Fn(&P, &NoteTokens) -> Option<Vec<u8>>>(
    baker: &NoteBaker<P>,
    note: Seq<char>,
    call: C,
    r: Seq<(String, Vec<u8>)>,
) -> bool {
    exists|t: NoteTokens|
        t.raw_view() == note && t.tags_view() == tokenize(note) && #[trigger] bake_outcome(
            baker,
            &t,
            call,
            r,
        )
}

/// The `(id, tags)` entries kept for `records` whose notes baked to `results`
/// (pairwise): one per record whose result is non-empty, in record order.
pub open spec fn kept_entries<R: HasId>(
    records: Seq<R>,
    results: Seq<Seq<(String, Vec<u8>)>>,
) -> Seq<(i32, Seq<(String, Vec<u8>)>)>
    decreases records.len(),
{
    if records.len() == 0 || results.len() == 0 {
        seq![]
    } else {
        let rest = kept_entries(records.drop_last(), results.drop_last());
        if results.last().len() > 0 {
            rest.push((records.last().id_view(), results.last()))
        } else {
            rest
        }
    }
}

/// The `(id, tags)` view of baked entries.
pub open spec fn baked_entries(b: Seq<BakedRecordNotes>) -> Seq<(i32, Seq<(String, Vec<u8>)>)> {
    b.map_values(|e: BakedRecordNotes| (e.id, e.tags@))
}

proof fn lemma_kept_entries<R: HasId>(
    records: Seq<R>,
    results: Seq<Seq<(String, Vec<u8>)>>,
)
    requires
        results.len() == records.len(),
    ensures
        forall|j: int|
            0 <= j < kept_entries(records, results).len() ==> exists|k: int|
                0 <= k < records.len() && records[k].id_view() == (#[trigger] kept_entries(
                    records,
                    results,
                )[j]).0 && kept_entries(records, results)[j].1 == results[k]
                    && results[k].len() > 0,
        forall|k: int|
            0 <= k < records.len() && (#[trigger] results[k]).len() > 0 ==> exists|j: int|
                0 <= j < kept_entries(records, results).len() && kept_entries(records, results)[j]
                    == (records[k].id_view(), results[k]),
    decreases records.len(),
{
    if records.len() > 0 {
        let r0 = records.drop_last();
        let s0 = results.drop_last();
        lemma_kept_entries(r0, s0);
        let rest = kept_entries(r0, s0);
        let all = kept_entries(records, results);
        let last = records.len() - 1;
        assert forall|k: int| 0 <= k < r0.len() implies r0[k] == records[k] && s0[k] == results[k] by {}
        assert forall|j: int| 0 <= j < all.len() implies exists|k: int|
            0 <= k < records.len() && records[k].id_view() == (#[trigger] all[j]).0 && all[j].1
                == results[k] && results[k].len() > 0 by {
            if j < rest.len() {
                assert(all[j] == rest[j]);
                let k = choose|k: int|
                    0 <= k < r0.len() && r0[k].id_view() == (#[trigger] rest[j]).0 && rest[j].1
                        == s0[k] && s0[k].len() > 0;
                assert(records[k] == r0[k] && results[k] == s0[k]);
            } else {
                assert(all[j] == (records[last].id_view(), results[last]));
            }
        }
        assert forall|k: int| 0 <= k < records.len() && (#[trigger] results[k]).len() > 0 implies exists|
            j: int,
        | 0 <= j < all.len() && all[j] == (records[k].id_view(), results[k]) by {
            if k < last {
                assert(s0[k] == results[k] && r0[k] == records[k]);
                assert(s0[k].len() > 0);
                let j = choose|j: int|
                    0 <= j < rest.len() && rest[j] == (r0[k].id_view(), s0[k]);
                assert(all[j] == rest[j]);
            } else {
                assert(all[rest.len() as int] == (records[last].id_view(), results[last]));
            }
        }
    }
}

/// Processing keeps each record's whole bake: every baked entry carries a
/// record's id together with the complete `(tag, bytes)` list its note bakes
/// to (never a part of it), and every record whose note bakes to something
/// has such an entry.
#[verifier::rlimit(60)]
pub proof fn law_transform_keeps_whole_bakes<
    R: HasNote + HasId,
    P,
    C: Fn(&P, &NoteTokens) -> Option<Vec<u8>>,
>(
    baker: &NoteBaker<P>,
    call: C,
    records: Seq<R>,
    results: Seq<Seq<(String, Vec<u8>)>>,
    baked: Seq<BakedRecordNotes>,
)
    requires
        results.len() == records.len(),
        forall|k: int|
            0 <= k < results.len() ==> baked_note_of(
                baker,
                #[trigger] records[k].note_view(),
                call,
                results[k],
            ),
        baked_entries(baked) == kept_entries(records, results),
    ensures
        forall|j: int|
            0 <= j < baked.len() ==> exists|k: int|
                0 <= k < records.len() && records[k].id_view() == (#[trigger] baked[j]).id
                    && baked[j].tags@ == results[k] && baked[j].tags@.len() > 0 && baked_note_of(
                    baker,
                    records[k].note_view(),
                    call,
                    baked[j].tags@,
                ),
        forall|k: int|
            0 <= k < records.len() && (#[trigger] results[k]).len() > 0 ==> exists|j: int|
                0 <= j < baked.len() && baked[j].id == records[k].id_view() && baked[j].tags@
                    == results[k],
{
    lemma_kept_entries(records, results);
    let e = kept_entries(records, results);
    let be = baked_entries(baked);
    assert(be.len() == baked.len());
    assert forall|j: int| 0 <= j < baked.len() implies exists|k: int|
        0 <= k < records.len() && records[k].id_view() == (#[trigger] baked[j]).id && baked[j].tags@
            == results[k] && baked[j].tags@.len() > 0 && baked_note_of(
            baker,
            records[k].note_view(),
            call,
            baked[j].tags@,
        ) by {
        assert(be[j] == (baked[j].id, baked[j].tags@));
        assert(e[j] == be[j]);
        let k = choose|k: int|
            0 <= k < records.len() && records[k].id_view() == (#[trigger] e[j]).0 && e[j].1
                == results[k] && results[k].len() > 0;
        assert(baked_note_of(baker, records[k].note_view(), call, results[k]));
    }
    assert forall|k: int| 0 <= k < records.len() && (#[trigger] results[k]).len() > 0 implies exists|
        j: int,
    | 0 <= j < baked.len() && baked[j].id == records[k].id_view() && baked[j].tags@ == results[k] by {
        let j = choose|j: int| 0 <= j < e.len() && e[j] == (records[k].id_view(), results[k]);
        assert(be[j] == (baked[j].id, baked[j].tags@));
    }
}

/// Bakes parsed note metadata into a table at processing time.
pub struct NoteBakingTransformer<P> {
    baker: NoteBaker<P>,
}

impl<P> NoteBakingTransformer<P> {
    /// A transformer that bakes with the parsers captured in `baker`.
    pub fn new(baker: NoteBaker<P>) -> (r: Self)
        ensures
            r.baker_spec() == baker,
    {
        NoteBakingTransformer { baker }
    }

    /// The captured parsers.
    pub closed spec fn baker_spec(&self) -> NoteBaker<P> {
        self.baker
    }

    /// The captured parsers.
    pub fn baker(&self) -> (r: &NoteBaker<P>)
        ensures
            *r == self.baker_spec(),
    {
        &self.baker
    }

    /// Bakes every present record's note (through `call`, which serializes a
    /// parser's output) and attaches, for each record whose note yielded any
    /// metadata, its id and `(tag, bytes)` pairs, in record order. The records
    /// themselves are left untouched.
    pub fn transform<R: HasNote + HasId, C: Fn(&P, &NoteTokens) -> Option<Vec<u8>>>(
        &self,
        table: &mut Table<R>,
        call: &C,
    )
        requires
            forall|p: &P, t: &NoteTokens| call.requires((p, t)),
        ensures
            final(table).records_view() == old(table).records_view(),
            final(table).baked_view() is Some,
            exists|results: Seq<Seq<(String, Vec<u8>)>>|
                results.len() == present(old(table).records_view()).len() && (forall|k: int|
                    0 <= k < results.len() ==> baked_note_of(
                        &self.baker_spec(),
                        #[trigger] present(old(table).records_view())[k].note_view(),
                        call,
                        results[k],
                    )) && baked_entries(final(table).baked_view()->0) == kept_entries(
                    present(old(table).records_view()),
                    results,
                ),
            forall|j: int|
                0 <= j < final(table).baked_view()->0.len() ==> exists|k: int|
                    0 <= k < present(old(table).records_view()).len() && present(
                        old(table).records_view(),
                    )[k].id_view() == (#[trigger] final(table).baked_view()->0[j]).id
                        && final(table).baked_view()->0[j].tags@.len() > 0 && baked_note_of(
                        &self.baker_spec(),
                        present(old(table).records_view())[k].note_view(),
                        call,
                        final(table).baked_view()->0[j].tags@,
                    ),
    {
        let ghost recs = present(table.records_view());
        let mut out: Vec<BakedRecordNotes> = Vec::new();
        let ghost mut results: Seq<Seq<(String, Vec<u8>)>> = Seq::empty();
        {
            let rows = table.iter();
            assert(rows@.map_values(|t: &R| *t) == recs);
            let mut k: usize = 0;
            while k < rows.len()
                invariant
                    k <= rows@.len(),
                    rows@.map_values(|t: &R| *t) == recs,
                    forall|p: &P, t: &NoteTokens| call.requires((p, t)),
                    results.len() == k,
                    forall|i: int|
                        0 <= i < k ==> baked_note_of(
                            &self.baker,
                            #[trigger] recs[i].note_view(),
                            call,
                            results[i],
                        ),
                    baked_entries(out@) == kept_entries(recs.take(k as int), results),
                decreases rows@.len() - k,
            {
                let row = rows[k];
                assert(recs[k as int] == *row);
                let tokens = NoteTokens::parse(row.note());
                let tags = self.baker.bake(&tokens, call);
                proof {
                    assert(bake_outcome(&self.baker, &tokens, call, tags@));
                    assert(baked_note_of(&self.baker, row.note_view(), call, tags@));
                }
                let ghost prev = results;
                proof {
                    results = results.push(tags@);
                    assert(recs.take(k + 1).drop_last() =~= recs.take(k as int));
                    assert(results.drop_last() =~= prev);
                    assert(recs.take(k + 1).last() == *row);
                    assert forall|i: int| 0 <= i < k + 1 implies baked_note_of(
                        &self.baker,
                        #[trigger] recs[i].note_view(),
                        call,
                        results[i],
                    ) by {
                        if i < k {
                            assert(results[i] == prev[i]);
                        }
                    }
                }
                if tags.len() > 0 {
                    let ghost before = out@;
                    let id = row.id();
                    out.push(BakedRecordNotes { id, tags });
                    assert(baked_entries(out@) =~= baked_entries(before).push((id, results.last())));
                } else {
                    assert(results.last().len() == 0);
                }
                k = k + 1;
            }
            assert(recs.take(rows@.len() as int) =~= recs);
        }
        let ghost kept = out@;
        table.set_baked(out);
        proof {
            assert(results.len() == recs.len());
            law_transform_keeps_whole_bakes(&self.baker, call, recs, results, kept);
        }
    }
}

} // verus!
