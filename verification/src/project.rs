//! The display projector: a pure function from the table and the typed
//! buffer to the render-ready rows, plus the column widths the renderer lays
//! the table out with.

use vstd::prelude::*;

use crate::bindings::{is_char_prefix, reachable_spec, Binding, BindingModel, BindingTable};

verus! {

/// One render-ready row: the still-reachable binding's three texts, and how
/// many leading characters of the key sequence are already typed (to be shown
/// de-emphasized by the renderer).
#[derive(Debug, PartialEq, Eq)]
pub struct DisplayRow {
    pub key_sequence: Vec<char>,
    pub output: Vec<char>,
    pub description: Vec<char>,
    pub typed_prefix_len: usize,
}

/// The mathematical image of a `DisplayRow`.
pub struct DisplayRowModel {
    pub key_sequence: Seq<char>,
    pub output: Seq<char>,
    pub description: Seq<char>,
    pub typed_prefix_len: nat,
}

impl View for DisplayRow {
    type V = DisplayRowModel;

    open spec fn view(&self) -> DisplayRowModel {
        DisplayRowModel {
            key_sequence: self.key_sequence@,
            output: self.output@,
            description: self.description@,
            typed_prefix_len: self.typed_prefix_len as nat,
        }
    }
}

/// The row a reachable binding projects to, under a buffer of length `n`.
pub open spec fn row_of(b: BindingModel, n: nat) -> DisplayRowModel {
    DisplayRowModel {
        key_sequence: b.key_sequence,
        output: b.output,
        description: b.description,
        typed_prefix_len: n,
    }
}

/// The projected view: the reachable bindings in table order, each carrying
/// the typed-prefix length.
pub open spec fn project_spec(t: Seq<BindingModel>, buf: Seq<char>) -> Seq<DisplayRowModel> {
    reachable_spec(t, buf).map_values(|b: BindingModel| row_of(b, buf.len()))
}

/// Projects the table under the current buffer. Beyond the exact shape of the
/// rows, every row's typed-prefix length is at most its key sequence's
/// length, so the renderer may split each key sequence at that point.
pub fn project(table: &BindingTable, buffer: &Vec<char>) -> (rows: Vec<DisplayRow>)
    ensures
        rows@.map_values(|r: DisplayRow| r@) == project_spec(table@, buffer@),
        forall|i: int|
            0 <= i < rows@.len() ==> #[trigger] rows@[i].typed_prefix_len
                <= rows@[i].key_sequence@.len(),
{
    let source = table.all();
    let mut rows: Vec<DisplayRow> = Vec::new();
    let mut i: usize = 0;
    proof {
        assert(table@.take(0) =~= Seq::<BindingModel>::empty());
        assert(rows@.map_values(|r: DisplayRow| r@) =~= Seq::<DisplayRowModel>::empty());
    }
    while i < source.len()
        invariant
            i <= source@.len(),
            source@.map_values(|b: Binding| b@) == table@,
            rows@.map_values(|r: DisplayRow| r@) == project_spec(table@.take(i as int), buffer@),
            forall|j: int|
                0 <= j < rows@.len() ==> #[trigger] rows@[j].typed_prefix_len
                    <= rows@[j].key_sequence@.len(),
        decreases source@.len() - i,
    {
        let ghost prev = rows@.map_values(|r: DisplayRow| r@);
        let b = &source[i];
        if is_char_prefix(buffer, &b.key_sequence) {
            let copy = b.duplicate();
            rows.push(
                DisplayRow {
                    key_sequence: copy.key_sequence,
                    output: copy.output,
                    description: copy.description,
                    typed_prefix_len: buffer.len(),
                },
            );
            proof {
                assert(rows@.map_values(|r: DisplayRow| r@) =~= prev.push(
                    row_of(table@[i as int], buffer@.len()),
                ));
            }
        }
        proof {
            let tk = table@.take(i + 1);
            assert(tk.drop_last() =~= table@.take(i as int));
            assert(tk.last() == table@[i as int]);
            if buffer@.is_prefix_of(table@[i as int].key_sequence) {
                assert(project_spec(tk, buffer@) =~= project_spec(table@.take(i as int), buffer@)
                    .push(row_of(table@[i as int], buffer@.len())));
            } else {
                assert(project_spec(tk, buffer@) =~= project_spec(
                    table@.take(i as int),
                    buffer@,
                ));
            }
        }
        i += 1;
    }
    proof {
        assert(table@.take(table@.len() as int) =~= table@);
    }
    rows
}

/// The length of the longest key sequence in the table, 0 when it is empty.
pub open spec fn max_key_len(t: Seq<BindingModel>) -> nat
    decreases t.len(),
{
    if t.len() == 0 {
        0
    } else {
        let rest = max_key_len(t.drop_last());
        if t.last().key_sequence.len() > rest {
            t.last().key_sequence.len()
        } else {
            rest
        }
    }
}

/// The length of the longest output in the table, 0 when it is empty.
pub open spec fn max_output_len(t: Seq<BindingModel>) -> nat
    decreases t.len(),
{
    if t.len() == 0 {
        0
    } else {
        let rest = max_output_len(t.drop_last());
        if t.last().output.len() > rest {
            t.last().output.len()
        } else {
            rest
        }
    }
}

/// The length of the longest description in the table, 0 when it is empty.
pub open spec fn max_description_len(t: Seq<BindingModel>) -> nat
    decreases t.len(),
{
    if t.len() == 0 {
        0
    } else {
        let rest = max_description_len(t.drop_last());
        if t.last().description.len() > rest {
            t.last().description.len()
        } else {
            rest
        }
    }
}

/// The widths the three columns are laid out with: the longest key sequence,
/// output and description over the whole table (not only the reachable part),
/// each 0 for an empty table.
pub fn column_widths(table: &BindingTable) -> (w: (usize, usize, usize))
    ensures
        w.0 == max_key_len(table@),
        w.1 == max_output_len(table@),
        w.2 == max_description_len(table@),
{
    let source = table.all();
    let mut wk: usize = 0;
    let mut wo: usize = 0;
    let mut wd: usize = 0;
    let mut i: usize = 0;
    proof {
        assert(table@.take(0) =~= Seq::<BindingModel>::empty());
    }
    while i < source.len()
        invariant
            i <= source@.len(),
            source@.map_values(|b: Binding| b@) == table@,
            wk == max_key_len(table@.take(i as int)),
            wo == max_output_len(table@.take(i as int)),
            wd == max_description_len(table@.take(i as int)),
        decreases source@.len() - i,
    {
        let b = &source[i];
        if b.key_sequence.len() > wk {
            wk = b.key_sequence.len();
        }
        if b.output.len() > wo {
            wo = b.output.len();
        }
        if b.description.len() > wd {
            wd = b.description.len();
        }
        proof {
            let tk = table@.take(i + 1);
            assert(tk.drop_last() =~= table@.take(i as int));
            assert(tk.last() == table@[i as int]);
        }
        i += 1;
    }
    proof {
        assert(table@.take(table@.len() as int) =~= table@);
    }
    (wk, wo, wd)
}

} // verus!
