//! Texts made fit to draw.
//!
//! A cell may hold any text, the escape character among it, with which a
//! terminal is told to do something else than to show a character. A table is
//! drawn from texts without it: every escape character gives way to the
//! symbol that stands for it, and every other character stays as it is.

use vstd::prelude::*;

verus! {

/// The escape character.
pub const ESCAPE: char = '\u{1b}';

/// The symbol that is shown in place of an escape character.
pub const ESCAPE_SYMBOL: char = '\u{241b}';

/// The character that is shown for `c`.
pub open spec fn visible_char(c: char) -> char {
    if c == ESCAPE {
        ESCAPE_SYMBOL
    } else {
        c
    }
}

/// The text that is shown for `text`: character by character, the character
/// that is shown for it.
pub open spec fn visible(text: Seq<char>) -> Seq<char> {
    Seq::new(text.len(), |k: int| visible_char(text[k]))
}

/// The records that are shown for `records`: cell by cell, the text that is
/// shown for it.
pub open spec fn visible_records(records: Seq<Seq<Seq<char>>>) -> Seq<Seq<Seq<char>>> {
    Seq::new(
        records.len(),
        |i: int| Seq::new(records[i].len(), |j: int| visible(records[i][j])),
    )
}

/// `text` holds an escape character.
pub open spec fn holds_escape(text: Seq<char>) -> bool {
    exists|k: int| 0 <= k < text.len() && #[trigger] text[k] == ESCAPE
}

/// No cell of `records` holds an escape character.
pub open spec fn free_of_escapes(records: Seq<Seq<Seq<char>>>) -> bool {
    forall|i: int, j: int|
        0 <= i < records.len() && 0 <= j < records[i].len() ==> !holds_escape(
            #[trigger] records[i][j],
        )
}

/// What is shown holds no escape character, and a text without one is shown
/// as it is.
pub proof fn lemma_visible_text(text: Seq<char>)
    ensures
        !holds_escape(visible(text)),
        !holds_escape(text) ==> visible(text) == text,
{
    if !holds_escape(text) {
        assert forall|k: int| 0 <= k < text.len() implies visible(text)[k] == text[k] by {
            assert(text[k] != ESCAPE);
        }
        assert(visible(text) =~= text);
    }
}

/// What is shown for records is free of escape characters and has their
/// shape: as many records, and in each as many cells.
pub proof fn lemma_visible_records(records: Seq<Seq<Seq<char>>>)
    ensures
        free_of_escapes(visible_records(records)),
        visible_records(records).len() == records.len(),
        forall|i: int|
            0 <= i < records.len() ==> (#[trigger] visible_records(records)[i]).len()
                == records[i].len(),
        free_of_escapes(records) ==> visible_records(records) == records,
{
    let shown = visible_records(records);
    assert forall|i: int, j: int| 0 <= i < shown.len() && 0 <= j < shown[i].len() implies !holds_escape(
        #[trigger] shown[i][j],
    ) by {
        lemma_visible_text(records[i][j]);
    }
    if free_of_escapes(records) {
        assert forall|i: int| 0 <= i < records.len() implies shown[i] == records[i] by {
            assert forall|j: int| 0 <= j < records[i].len() implies shown[i][j] == records[i][j] by {
                assert(!holds_escape(records[i][j]));
                lemma_visible_text(records[i][j]);
            }
            assert(shown[i] =~= records[i]);
        }
        assert(shown =~= records);
    }
}

/// The text that is shown for `text`: every escape character replaced by
/// its symbol.
pub fn visible_text(text: &str) -> (out: String)
    ensures
        out@ == visible(text@),
{
    let n = text.unicode_len();
    let mut out = String::new();
    let mut start: usize = 0;
    let mut i: usize = 0;
    proof {
        reveal_strlit("\u{241b}");
        assert(out@ =~= visible(text@.take(0)));
    }
    for c in it: text.chars()
        invariant
            it.seq() == text@,
            n == text@.len(),
            i == it.index(),
            start <= i <= n,
            "\u{241b}"@ == seq![ESCAPE_SYMBOL],
            out@ == visible(text@.take(start as int)),
            forall|k: int| start <= k < i ==> #[trigger] text@[k] != ESCAPE,
    {
        assert(c == text@[i as int]);
        if c == ESCAPE {
            let ghost before = out@;
            let piece = text.substring_char(start, i);
            out.append(piece);
            out.append("\u{241b}");
            proof {
                assert(out@ == before + piece@ + seq![ESCAPE_SYMBOL]);
                assert(out@ =~= visible(text@.take(i + 1)));
            }
            start = i + 1;
        }
        i += 1;
    }
    let ghost before = out@;
    let piece = text.substring_char(start, n);
    out.append(piece);
    proof {
        assert(out@ == before + piece@);
        assert(text@.take(n as int) =~= text@);
        assert(out@ =~= visible(text@));
    }
    out
}

/// The record that is shown for `record`.
fn visible_record(record: &Vec<String>) -> (out: Vec<String>)
    ensures
        out.deep_view() == Seq::new(
            record.deep_view().len(),
            |j: int| visible(record.deep_view()[j]),
        ),
{
    let ghost goal = Seq::new(record.deep_view().len(), |j: int| visible(record.deep_view()[j]));
    let mut out: Vec<String> = Vec::new();
    let mut j: usize = 0;
    assert(out.deep_view() =~= goal.take(0));
    while j < record.len()
        invariant
            j <= record.len(),
            goal == Seq::new(record.deep_view().len(), |j: int| visible(record.deep_view()[j])),
            out.deep_view() == goal.take(j as int),
        decreases record.len() - j,
    {
        let ghost before = out.deep_view();
        let text = visible_text(record[j].as_str());
        out.push(text);
        proof {
            assert(out.deep_view() =~= before.push(text@));
            assert(goal.take(j + 1) =~= goal.take(j as int).push(goal[j as int]));
        }
        j += 1;
    }
    proof {
        assert(goal.take(j as int) =~= goal);
    }
    out
}

/// The records that are shown for `records`: in every cell every escape
/// character replaced by its symbol.
pub fn visible_cells(records: &Vec<Vec<String>>) -> (out: Vec<Vec<String>>)
    ensures
        out.deep_view() == visible_records(records.deep_view()),
        free_of_escapes(out.deep_view()),
{
    let ghost goal = visible_records(records.deep_view());
    let mut out: Vec<Vec<String>> = Vec::new();
    let mut i: usize = 0;
    assert(out.deep_view() =~= goal.take(0));
    while i < records.len()
        invariant
            i <= records.len(),
            goal == visible_records(records.deep_view()),
            out.deep_view() == goal.take(i as int),
        decreases records.len() - i,
    {
        let ghost before = out.deep_view();
        let record = visible_record(&records[i]);
        out.push(record);
        proof {
            assert(out.deep_view() =~= before.push(record.deep_view()));
            assert(record.deep_view() =~= goal[i as int]);
            assert(goal.take(i + 1) =~= goal.take(i as int).push(goal[i as int]));
        }
        i += 1;
    }
    proof {
        assert(goal.take(i as int) =~= goal);
        lemma_visible_records(records.deep_view());
    }
    out
}

} // verus!
