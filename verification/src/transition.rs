//! Depth-indexed lookup tables: how a quantity steps up as the dungeon gets
//! deeper.

use vstd::prelude::*;

verus! {

/// From dungeon level `level` on, the quantity is `value`.
#[derive(Clone, Copy, Debug, PartialEq, Eq, Structural)]
pub struct Transition {
    pub level: u32,
    pub value: u32,
}

/// The value a table gives at `level`: that of the last entry whose level does
/// not exceed `level`, and 0 where there is none.
pub open spec fn level_value(table: Seq<Transition>, level: u32) -> u32
    decreases table.len(),
{
    if table.len() == 0 {
        0
    } else if level >= table.last().level {
        table.last().value
    } else {
        level_value(table.drop_last(), level)
    }
}

/// `level_value` in terms of positions in the table.
pub proof fn lemma_level_value(table: Seq<Transition>, level: u32)
    ensures
        (forall|i: int| 0 <= i < table.len() ==> level < (#[trigger] table[i]).level)
            ==> level_value(table, level) == 0,
        forall|i: int|
            0 <= i < table.len() && level >= (#[trigger] table[i]).level && (forall|j: int|
                i < j < table.len() ==> level < (#[trigger] table[j]).level) ==> level_value(
                table,
                level,
            ) == table[i].value,
    decreases table.len(),
{
    if table.len() > 0 {
        let rest = table.drop_last();
        lemma_level_value(rest, level);
        assert forall|i: int|
            0 <= i < table.len() && level >= (#[trigger] table[i]).level && (forall|j: int|
                i < j < table.len() ==> level < (#[trigger] table[j]).level) implies level_value(
            table,
            level,
        ) == table[i].value by {
            if i < table.len() - 1 {
                assert(level < table[table.len() - 1].level);
                assert(rest[i] == table[i]);
                assert forall|j: int| i < j < rest.len() implies level < (#[trigger] rest[j]).level by {
                    assert(rest[j] == table[j]);
                }
            }
        }
        if forall|i: int| 0 <= i < table.len() ==> level < (#[trigger] table[i]).level {
            assert(level < table[table.len() - 1].level);
            assert forall|i: int| 0 <= i < rest.len() implies level < (#[trigger] rest[i]).level by {
                assert(rest[i] == table[i]);
            }
        }
    }
}

/// Looks `level` up in `table`.
pub fn from_dungeon_level(table: &[Transition], level: u32) -> (value: u32)
    ensures
        value == level_value(table@, level),
{
    let mut i: usize = table.len();
    proof {
        assert(table@.take(i as int) =~= table@);
    }
    while i > 0
        invariant
            i <= table@.len(),
            level_value(table@, level) == level_value(table@.take(i as int), level),
        decreases i,
    {
        proof {
            let prefix = table@.take(i as int);
            assert(prefix.last() == table@[i - 1]);
            assert(prefix.drop_last() =~= table@.take(i - 1));
        }
        if level >= table[i - 1].level {
            return table[i - 1].value;
        }
        i -= 1;
    }
    proof {
        assert(table@.take(0).len() == 0);
    }
    0
}

} // verus!
