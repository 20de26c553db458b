//! Decisions around stored rows: new note ids, reading a note row back,
//! re-keying notes when the title rules change, what an undo invalidates.
use vstd::prelude::*;

use crate::citation::{markers, markers_s};
use crate::store::{
    copy_string, kind_of_str, ov, paper_key_of, paper_key_s, unknown_key, unknown_key_s, Citation,
    CitationKind, Note,
};
use crate::text::{all_digits, chars_of, digits_value, eq_chars, is_digit};

verus! {

/// The id of a new note: the current time in milliseconds, moved past the
/// largest id in use so that ids stay unique.
pub open spec fn next_note_id_s(now_ms: i64, max_id: Option<i64>) -> i64 {
    match max_id {
        Some(m) => if now_ms <= m {
            (m + 1) as i64
        } else {
            now_ms
        },
        None => now_ms,
    }
}

pub fn next_note_id(now_ms: i64, max_id: Option<i64>) -> (r: i64)
    requires
        max_id matches Some(m) ==> m < i64::MAX,
    ensures
        r == next_note_id_s(now_ms, max_id),
        max_id matches Some(m) ==> r > m,
{
    match max_id {
        Some(m) => if now_ms <= m {
            m + 1
        } else {
            now_ms
        },
        None => now_ms,
    }
}

/// The version of the rules references are worked out by; a store that
/// recorded another one has its references cleared.
pub const REFS_RULE_VERSION: i64 = 6;

/// Whether a stored version text reads as `i64` 6 (an optional `+`, then
/// digits worth 6).
pub open spec fn is_current_rule_s(stored: Option<Seq<char>>) -> bool {
    match stored {
        Some(s) => {
            let d = if s.len() > 0 && s[0] == '+' {
                s.subrange(1, s.len() as int)
            } else {
                s
            };
            d.len() > 0 && all_digits(d) && digits_value(d) == 6
        },
        None => false,
    }
}

pub fn is_current_rule(stored: Option<&str>) -> (r: bool)
    ensures
        r == is_current_rule_s(crate::extraction::opt_str_view(stored)),
{
    let s = match stored {
        Some(s) => chars_of(s),
        None => {
            return false;
        },
    };
    let start: usize = if s.len() > 0 && s[0] == '+' {
        1
    } else {
        0
    };
    let ghost d = s@.subrange(start as int, s@.len() as int);
    proof {
        assert(d =~= (if s@.len() > 0 && s@[0] == '+' {
            s@.subrange(1, s@.len() as int)
        } else {
            s@
        }));
    }
    if start >= s.len() {
        proof {
            assert(d.len() == 0);
        }
        return false;
    }
    let mut capped: u64 = 0;
    let mut i: usize = start;
    proof {
        assert(d.take(0) =~= Seq::<char>::empty());
    }
    while i < s.len()
        invariant
            start <= i <= s.len(),
            d == s@.subrange(start as int, s@.len() as int),
            crate::extraction::opt_str_view(stored) == Some(s@),
            d == (if s@.len() > 0 && s@[0] == '+' {
                s@.subrange(1, s@.len() as int)
            } else {
                s@
            }),
            all_digits(d.take(i - start)),
            capped as nat == if digits_value(d.take(i - start)) < 7 {
                digits_value(d.take(i - start))
            } else {
                7
            },
        decreases s.len() - i,
    {
        let c = s[i];
        proof {
            assert(d[i - start] == c);
            assert(d.take(i - start + 1).drop_last() =~= d.take(i - start));
        }
        if !('0' <= c && c <= '9') {
            proof {
                assert(!all_digits(d)) by {
                    assert(!is_digit(d[i - start]));
                }
            }
            return false;
        }
        let dv = (c as u32 - 48) as u64;
        let next = capped * 10 + dv;
        capped = if next < 7 {
            next
        } else {
            7
        };
        proof {
            assert(all_digits(d.take(i - start + 1)));
            let v = digits_value(d.take(i - start));
            let dd = digit_value_of(c);
            assert(digits_value(d.take(i - start + 1)) == v * 10 + dd);
            if v >= 7 {
                assert(v * 10 >= 70);
            }
        }
        i = i + 1;
    }
    proof {
        assert(d.take(s.len() - start) =~= d);
        assert(d.len() > 0);
    }
    capped == 6
}

pub open spec fn digit_value_of(c: char) -> nat {
    ((c as u32) - 48) as nat
}

/// A stored note read back: it has a marker when its text has one; an
/// unknown or missing kind reads as none; without a stored key it is a
/// paper of its own.
pub open spec fn note_of_row_s(
    id: i64,
    content: Seq<char>,
    kind: Option<Seq<char>>,
    paper_key: Option<Seq<char>>,
) -> (bool, CitationKind, Seq<char>) {
    (
        markers_s(content).len() > 0,
        kind_of_str(
            match kind {
                Some(k) => k,
                None => "none"@,
            },
        ),
        match paper_key {
            Some(k) => k,
            None => unknown_key_s(id),
        },
    )
}

/// Builds a note from the columns of its stored row.
pub fn note_from_row(
    id: i64,
    content: String,
    source_title: Option<String>,
    source_type: Option<String>,
    kind: Option<String>,
    created_at: String,
    citation: Option<Citation>,
    paper_key: Option<String>,
    bib_chunk_id: Option<i64>,
) -> (r: Note)
    ensures
        r.id == id,
        r.content@ == content@,
        ov(r.source_title) == ov(source_title),
        ov(r.source_type) == ov(source_type),
        crate::store::opt_cite_view(r.citation) == crate::store::opt_cite_view(citation),
        r.created_at@ == created_at@,
        r.bib_chunk_id == bib_chunk_id,
        (r.has_marker, r.citation_kind, r.paper_key@) == note_of_row_s(id, content@, ov(kind), ov(paper_key)),
{
    let has_marker = markers(content.as_str()).len() > 0;
    let citation_kind = match &kind {
        Some(k) => CitationKind::parse(k.as_str()),
        None => CitationKind::parse("none"),
    };
    let key = match paper_key {
        Some(k) => k,
        None => unknown_key(id),
    };
    Note {
        id,
        content,
        source_title,
        source_type,
        citation,
        citation_kind,
        created_at,
        has_marker,
        paper_key: key,
        bib_chunk_id,
    }
}

/// The key a note is stored under, from its window title.
pub open spec fn key_for_s(id: i64, title: Option<Seq<char>>) -> Seq<char> {
    match paper_key_s(title) {
        Some(k) => k,
        None => unknown_key_s(id),
    }
}

pub fn key_for(id: i64, title: Option<&str>) -> (r: String)
    ensures
        r@ == key_for_s(id, crate::extraction::opt_str_view(title)),
{
    match paper_key_of(title) {
        Some(k) => k,
        None => unknown_key(id),
    }
}

/// One stored note as re-keying reads it: id, window title, stored key.
pub open spec fn rows_view(v: Seq<(i64, Option<String>, Option<String>)>) -> Seq<
    (i64, Option<Seq<char>>, Option<Seq<char>>),
> {
    v.map_values(|r: (i64, Option<String>, Option<String>)| (r.0, ov(r.1), ov(r.2)))
}

/// The notes whose key changes under the current title rules, with their
/// new key.
pub open spec fn rekey_updates_s(rows: Seq<(i64, Option<Seq<char>>, Option<Seq<char>>)>) -> Seq<
    (i64, Seq<char>),
>
    decreases rows.len(),
{
    if rows.len() == 0 {
        seq![]
    } else {
        let rest = rekey_updates_s(rows.drop_last());
        let (id, title, old) = rows.last();
        let new_key = key_for_s(id, title);
        if old == Some(new_key) {
            rest
        } else {
            rest.push((id, new_key))
        }
    }
}

/// Old key → new key of the changed notes that had a key, the later note
/// winning for the same old key; the bibliographies, the paper being read
/// and the corrections of a paper move with it.
pub open spec fn rekey_moves_s(rows: Seq<(i64, Option<Seq<char>>, Option<Seq<char>>)>) -> Map<
    Seq<char>,
    Seq<char>,
>
    decreases rows.len(),
{
    if rows.len() == 0 {
        Map::empty()
    } else {
        let rest = rekey_moves_s(rows.drop_last());
        let (id, title, old) = rows.last();
        let new_key = key_for_s(id, title);
        match old {
            Some(o) => if old != Some(new_key) && o.len() > 0 {
                rest.insert(o, new_key)
            } else {
                rest
            },
            None => rest,
        }
    }
}

pub open spec fn moves_map(v: Seq<(String, String)>) -> Map<Seq<char>, Seq<char>>
    decreases v.len(),
{
    if v.len() == 0 {
        Map::empty()
    } else {
        moves_map(v.drop_last()).insert(v.last().0@, v.last().1@)
    }
}

/// Which notes get a new key and which paper data moves along, when keys
/// are worked out again by the current title rules.
pub fn rekey_plan(rows: &Vec<(i64, Option<String>, Option<String>)>) -> (r: (
    Vec<(i64, String)>,
    Vec<(String, String)>,
))
    ensures
        r.0@.map_values(|u: (i64, String)| (u.0, u.1@)) == rekey_updates_s(rows_view(rows@)),
        moves_map(r.1@) == rekey_moves_s(rows_view(rows@)),
        forall|i: int, j: int|
            0 <= i < j < r.1.len() ==> r.1@[i].0@ != r.1@[j].0@,
{
    let ghost rv = rows_view(rows@);
    let mut updates: Vec<(i64, String)> = Vec::new();
    let mut moves: Vec<(String, String)> = Vec::new();
    let mut i: usize = 0;
    proof {
        assert(rv.take(0) =~= Seq::<(i64, Option<Seq<char>>, Option<Seq<char>>)>::empty());
        assert(updates@.map_values(|u: (i64, String)| (u.0, u.1@)) =~= Seq::<(i64, Seq<char>)>::empty());
    }
    while i < rows.len()
        invariant
            0 <= i <= rows.len(),
            rv == rows_view(rows@),
            rv.len() == rows.len(),
            updates@.map_values(|u: (i64, String)| (u.0, u.1@)) == rekey_updates_s(rv.take(i as int)),
            moves_map(moves@) == rekey_moves_s(rv.take(i as int)),
            forall|a: int, b: int| 0 <= a < b < moves.len() ==> moves@[a].0@ != moves@[b].0@,
        decreases rows.len() - i,
    {
        let (id, title, old) = (&rows[i].0, &rows[i].1, &rows[i].2);
        proof {
            assert(rv.take(i + 1).drop_last() =~= rv.take(i as int));
            assert(rv.take(i + 1).last() == (*id, ov(*title), ov(*old)));
        }
        let new_key = key_for(
            *id,
            match title {
                Some(t) => Some(t.as_str()),
                None => None,
            },
        );
        let same = match old {
            Some(o) => eq_chars(&chars_of(o.as_str()), &chars_of(new_key.as_str())),
            None => false,
        };
        if !same {
            let ghost u0 = updates@;
            updates.push((*id, copy_string(&new_key)));
            proof {
                assert(updates@.map_values(|u: (i64, String)| (u.0, u.1@)) =~= u0.map_values(
                    |u: (i64, String)| (u.0, u.1@),
                ).push((*id, new_key@)));
            }
            match old {
                Some(o) => {
                    if chars_of(o.as_str()).len() > 0 {
                        let ov_ = chars_of(o.as_str());
                        let mut k: usize = 0;
                        let mut at: Option<usize> = None;
                        while k < moves.len()
                            invariant
                                0 <= k <= moves.len(),
                                ov_@ == o@,
                                at is None ==> forall|a: int| 0 <= a < k ==> moves@[a].0@ != o@,
                                at matches Some(p) ==> p < moves.len() && moves@[p as int].0@ == o@,
                            decreases moves.len() - k,
                        {
                            if at.is_none() && eq_chars(&chars_of(moves[k].0.as_str()), &ov_) {
                                at = Some(k);
                            }
                            k = k + 1;
                        }
                        let ghost m0 = moves@;
                        match at {
                            Some(p) => {
                                let entry = (copy_string(o), copy_string(&new_key));
                                moves.set(p, entry);
                                proof {
                                    lemma_moves_update(m0, p as int, o@, new_key@);
                                    assert(moves@ == m0.update(p as int, entry));
                                }
                            },
                            None => {
                                moves.push((copy_string(o), copy_string(&new_key)));
                                proof {
                                    assert(moves@.drop_last() =~= m0);
                                }
                            },
                        }
                    }
                },
                None => {},
            }
        }
        i = i + 1;
    }
    proof {
        assert(rv.take(rows.len() as int) =~= rv);
    }
    (updates, moves)
}

proof fn lemma_moves_update(m: Seq<(String, String)>, p: int, k: Seq<char>, v: Seq<char>)
    requires
        0 <= p < m.len(),
        m[p].0@ == k,
        forall|a: int, b: int| 0 <= a < b < m.len() ==> m[a].0@ != m[b].0@,
    ensures
        forall|e: (String, String)| e.0@ == k && e.1@ == v ==> #[trigger] moves_map(m.update(p, e))
            == moves_map(m).insert(k, v),
    decreases m.len(),
{
    assert forall|e: (String, String)| e.0@ == k && e.1@ == v implies #[trigger] moves_map(
        m.update(p, e),
    ) == moves_map(m).insert(k, v) by {
        if p == m.len() - 1 {
            assert(m.update(p, e).drop_last() =~= m.drop_last());
            assert(m.update(p, e).last() == e);
            assert(moves_map(m.update(p, e)) == moves_map(m.drop_last()).insert(k, v));
            assert(moves_map(m) == moves_map(m.drop_last()).insert(k, m.last().1@));
            assert(moves_map(m.update(p, e)) =~= moves_map(m).insert(k, v));
        } else {
            lemma_moves_update(m.drop_last(), p, k, v);
            assert(m.update(p, e).drop_last() =~= m.drop_last().update(p, e));
            assert(m.update(p, e).last() == m.last());
            assert(m.last().0@ != k);
            assert(moves_map(m.drop_last().update(p, e)) == moves_map(m.drop_last()).insert(k, v));
            assert(moves_map(m.update(p, e)) =~= moves_map(m).insert(k, v));
        }
    }
}

/// The keys once each, in order of first appearance.
pub open spec fn dedup_s(ks: Seq<Seq<char>>) -> Seq<Seq<char>>
    decreases ks.len(),
{
    if ks.len() == 0 {
        seq![]
    } else {
        let prev = dedup_s(ks.drop_last());
        if prev.contains(ks.last()) {
            prev
        } else {
            prev.push(ks.last())
        }
    }
}

/// The keys once each, in order of first appearance (the papers whose
/// references an undo invalidates).
pub fn dedup_keys(keys: &Vec<String>) -> (r: Vec<String>)
    ensures
        crate::store::sviews(r@) == dedup_s(crate::store::sviews(keys@)),
{
    let ghost kv_all = crate::store::sviews(keys@);
    let mut out: Vec<String> = Vec::new();
    let mut j: usize = 0;
    proof {
        assert(crate::store::sviews(out@) =~= dedup_s(kv_all.take(0)));
    }
    while j < keys.len()
        invariant
            0 <= j <= keys.len(),
            kv_all == crate::store::sviews(keys@),
            kv_all.len() == keys.len(),
            crate::store::sviews(out@) == dedup_s(kv_all.take(j as int)),
        decreases keys.len() - j,
    {
        let ghost ov_ = crate::store::sviews(out@);
        let kv = chars_of(keys[j].as_str());
        let mut found = false;
        let mut k: usize = 0;
        while k < out.len()
            invariant
                0 <= k <= out.len(),
                ov_ == crate::store::sviews(out@),
                ov_.len() == out.len(),
                found <==> ov_.take(k as int).contains(kv@),
            decreases out.len() - k,
        {
            let same = eq_chars(&chars_of(out[k].as_str()), &kv);
            if same {
                found = true;
            }
            proof {
                let t0 = ov_.take(k as int);
                let t1 = ov_.take(k + 1);
                assert(t1 =~= t0.push(ov_[k as int]));
                assert(ov_[k as int] == out@[k as int]@);
                if t0.contains(kv@) {
                    let x = choose|x: int| 0 <= x < t0.len() && t0[x] == kv@;
                    assert(t1[x] == kv@);
                }
                if same {
                    assert(t1[k as int] == kv@);
                }
                if t1.contains(kv@) {
                    let x = choose|x: int| 0 <= x < t1.len() && t1[x] == kv@;
                    if x < k {
                        assert(t0[x] == kv@);
                    }
                }
            }
            k = k + 1;
        }
        proof {
            assert(ov_.take(out.len() as int) =~= ov_);
            assert(kv_all.take(j + 1).drop_last() =~= kv_all.take(j as int));
            assert(kv_all.take(j + 1).last() == kv@);
        }
        if !found {
            out.push(copy_string(&keys[j]));
            proof {
                assert(crate::store::sviews(out@) =~= ov_.push(kv@));
            }
        }
        j = j + 1;
    }
    proof {
        assert(kv_all.take(keys.len() as int) =~= kv_all);
    }
    out
}

} // verus!
