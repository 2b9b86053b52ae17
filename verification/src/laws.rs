//! Laws relating the server's append to the client's read and split: an
//! appended entry comes back as the final newline-terminated line.

use vstd::prelude::*;
use crate::client::{lines_of, lemma_lines_of_nonempty};
use crate::fmtnum::is_digit;
use crate::http::{find_char, lemma_find_char_bounds, lemma_find_char_from};
use crate::server::{appended_text, entry_line_of};
use crate::timestamp::{is_timestamp_shape, lemma_timestamp_shape, timestamp_chars, Timestamp};

verus! {

/// Appending one newline-terminated line to log text that is empty or
/// newline-terminated splits into the old pieces minus the empty piece
/// after the final newline, then the new line, then the empty piece.
pub proof fn lemma_lines_append_line(c: Seq<char>, line: Seq<char>)
    requires
        c.len() == 0 || c.last() == '\n',
        forall|i: int| 0 <= i < line.len() ==> line[i] != '\n',
    ensures
        lines_of(c + line + seq!['\n']) == lines_of(c).drop_last() + seq![
            line,
            Seq::<char>::empty(),
        ],
    decreases c.len(),
{
    let whole = c + line + seq!['\n'];
    if c.len() == 0 {
        assert(whole =~= line + seq!['\n']);
        lemma_find_char_from(whole, '\n', 0, line.len() as int);
        assert(whole.subrange(0, line.len() as int) =~= line);
        assert(whole.subrange(line.len() as int + 1, whole.len() as int) =~= Seq::<char>::empty());
        assert(lines_of(Seq::<char>::empty()) == seq![Seq::<char>::empty()]);
        assert(lines_of(whole) == seq![line] + seq![Seq::<char>::empty()]);
        assert(lines_of(c) == seq![c]);
        assert(lines_of(c).drop_last() =~= Seq::<Seq<char>>::empty());
        assert(lines_of(whole) =~= lines_of(c).drop_last() + seq![line, Seq::<char>::empty()]);
    } else {
        let k = find_char(c, '\n', 0);
        lemma_find_char_bounds(c, '\n', 0);
        assert(k < c.len()) by {
            if k == c.len() {
                assert(c[c.len() - 1] != '\n');
            }
        }
        let tail = c.subrange(k + 1, c.len() as int);
        assert forall|j: int| 0 <= j < k implies whole[j] != '\n' by {
            assert(whole[j] == c[j]);
        }
        assert(whole[k] == c[k]);
        lemma_find_char_from(whole, '\n', 0, k);
        assert(whole.subrange(0, k) =~= c.subrange(0, k));
        assert(whole.subrange(k + 1, whole.len() as int) =~= tail + line + seq!['\n']);
        assert(tail.len() == 0 || tail.last() == '\n') by {
            if tail.len() > 0 {
                assert(tail.last() == c.last());
            }
        }
        lemma_lines_append_line(tail, line);
        lemma_lines_of_nonempty(tail);
        assert(lines_of(whole) == seq![c.subrange(0, k)] + lines_of(tail + line + seq!['\n']));
        assert(lines_of(c) == seq![c.subrange(0, k)] + lines_of(tail));
        assert(lines_of(c).drop_last() =~= seq![c.subrange(0, k)] + lines_of(tail).drop_last());
        assert(lines_of(whole) =~= lines_of(c).drop_last() + seq![line, Seq::<char>::empty()]);
    }
}

/// What one appended message looks like after a read: appending `msg`
/// stamped `ts` to a log whose text is absent, empty, or newline-terminated
/// gives text that splits into the old pieces minus the final empty piece,
/// then the line `<ts> <msg>`, then the empty piece after the new final
/// newline. In particular the appended entry is the last
/// newline-terminated line of what a read returns, held verbatim.
pub proof fn lemma_append_then_read(before: Option<Seq<char>>, ts: Seq<char>, msg: Seq<char>)
    requires
        before matches Some(c) ==> c.len() == 0 || c.last() == '\n',
        forall|i: int| 0 <= i < ts.len() ==> ts[i] != '\n',
        forall|i: int| 0 <= i < msg.len() ==> msg[i] != '\n',
    ensures
        ({
            let prior = match before {
                Some(c) => c,
                None => Seq::<char>::empty(),
            };
            let entry = ts + seq![' '] + msg;
            let ls = lines_of(appended_text(before, entry_line_of(ts, msg)));
            &&& ls == lines_of(prior).drop_last() + seq![entry, Seq::<char>::empty()]
            &&& ls.len() >= 2
            &&& ls[ls.len() - 2] == entry
            &&& ls.last() == Seq::<char>::empty()
        }),
{
    let prior = match before {
        Some(c) => c,
        None => Seq::<char>::empty(),
    };
    let entry = ts + seq![' '] + msg;
    assert forall|i: int| 0 <= i < entry.len() implies entry[i] != '\n' by {
        if i < ts.len() {
            assert(entry[i] == ts[i]);
        } else if i == ts.len() {
            assert(entry[i] == ' ');
        } else {
            assert(entry[i] == msg[i - ts.len() - 1]);
        }
    }
    assert(appended_text(before, entry_line_of(ts, msg)) =~= prior + entry + seq!['\n']);
    lemma_lines_append_line(prior, entry);
}

/// An appended message comes back from a read as the last
/// newline-terminated line, prefixed with its timestamp, and the prefix
/// matches `YYYY/MM/DD HH:MM:SS` whenever the year has at most four
/// digits.
pub proof fn lemma_appended_entry_timestamped(before: Option<Seq<char>>, ts: Timestamp, msg: Seq<char>)
    requires
        before matches Some(c) ==> c.len() == 0 || c.last() == '\n',
        ts.wf(),
        0 <= ts.year <= 9999,
        forall|i: int| 0 <= i < msg.len() ==> msg[i] != '\n',
    ensures
        ({
            let ls = lines_of(appended_text(before, entry_line_of(timestamp_chars(ts), msg)));
            &&& ls.len() >= 2
            &&& ls[ls.len() - 2] == timestamp_chars(ts) + seq![' '] + msg
            &&& is_timestamp_shape(ls[ls.len() - 2].take(19))
        }),
{
    let tc = timestamp_chars(ts);
    lemma_timestamp_shape(ts);
    assert forall|i: int| 0 <= i < tc.len() implies tc[i] != '\n' by {
        if i == 4 || i == 7 {
            assert(tc[i] == '/');
        } else if i == 10 {
            assert(tc[i] == ' ');
        } else if i == 13 || i == 16 {
            assert(tc[i] == ':');
        } else {
            assert(is_digit(tc[i]));
        }
    }
    lemma_append_then_read(before, tc, msg);
    let entry = tc + seq![' '] + msg;
    assert(entry.take(19) =~= tc);
}

} // verus!
