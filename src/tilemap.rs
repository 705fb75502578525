use vstd::prelude::*;

verus! {

/// One cell of a tile map: its column, its row, and its sprite.
#[derive(Clone, Copy, Debug, PartialEq, Eq, Structural)]
pub struct Tile {
    pub x: u32,
    pub y: u32,
    pub sprite_id: u32,
}

/// The pieces of `s` between the separators `sep`; there is always at least
/// one, possibly empty.
pub open spec fn split_on(s: Seq<u8>, sep: u8) -> Seq<Seq<u8>>
    decreases s.len(),
{
    if s.len() == 0 {
        seq![Seq::<u8>::empty()]
    } else {
        let rest = split_on(s.drop_last(), sep);
        if s.last() == sep {
            rest.push(Seq::<u8>::empty())
        } else {
            rest.update(rest.len() - 1, rest.last().push(s.last()))
        }
    }
}

/// A line without the carriage return that may end it.
pub open spec fn without_cr(line: Seq<u8>) -> Seq<u8> {
    if line.len() > 0 && line.last() == 13u8 {
        line.drop_last()
    } else {
        line
    }
}

/// The lines of a text: split at line feeds, with no line after a final
/// line feed and none at all in an empty text, each without a final
/// carriage return.
pub open spec fn lines_of(s: Seq<u8>) -> Seq<Seq<u8>> {
    let parts = split_on(s, 10u8);
    let parts = if s.len() > 0 && s.last() == 10u8 {
        parts.drop_last()
    } else if s.len() == 0 {
        Seq::<Seq<u8>>::empty()
    } else {
        parts
    };
    parts.map_values(|l: Seq<u8>| without_cr(l))
}

pub open spec fn is_digit(b: u8) -> bool {
    48u8 <= b <= 57u8
}

/// The number that a string of decimal digits writes.
pub open spec fn decimal_value(s: Seq<u8>) -> int
    decreases s.len(),
{
    if s.len() == 0 {
        0
    } else {
        decimal_value(s.drop_last()) * 10 + (s.last() - 48u8)
    }
}

/// The digits of a field, after an optional plus sign.
pub open spec fn field_digits(s: Seq<u8>) -> Seq<u8> {
    if s.len() > 0 && s[0] == 43u8 {
        s.subrange(1, s.len() as int)
    } else {
        s
    }
}

/// The `u32` that a field writes in decimal (an optional `+`, then at least
/// one digit), if it writes one that fits.
pub open spec fn field_value(s: Seq<u8>) -> Option<u32> {
    let d = field_digits(s);
    if d.len() > 0 && (forall|i: int| 0 <= i < d.len() ==> is_digit(#[trigger] d[i])) && decimal_value(d)
        <= u32::MAX {
        Some(decimal_value(d) as u32)
    } else {
        None
    }
}

/// The tiles of one row, from column `x` on, or `None` if a field is not a
/// number.
pub open spec fn row_tiles(fields: Seq<Seq<u8>>, y: u32) -> Option<Seq<Tile>>
    decreases fields.len(),
{
    if fields.len() == 0 {
        Some(Seq::empty())
    } else {
        match (row_tiles(fields.drop_last(), y), field_value(fields.last())) {
            (Some(ts), Some(v)) => Some(
                ts.push(Tile { x: (fields.len() - 1) as u32, y, sprite_id: v }),
            ),
            _ => None,
        }
    }
}

/// The tiles of a map given as lines of comma-separated sprite ids, row by
/// row, or `None` if a field is not a number.
pub open spec fn map_tiles(lines: Seq<Seq<u8>>) -> Option<Seq<Tile>>
    decreases lines.len(),
{
    if lines.len() == 0 {
        Some(Seq::empty())
    } else {
        match (map_tiles(lines.drop_last()), row_tiles(split_on(lines.last(), 44u8), (lines.len() - 1) as u32)) {
            (Some(a), Some(b)) => Some(a + b),
            _ => None,
        }
    }
}

/// The pieces of `s` between the separators `sep`.
fn split_bytes(s: &[u8], sep: u8) -> (r: Vec<Vec<u8>>)
    ensures
        r@.map_values(|v: Vec<u8>| v@) == split_on(s@, sep),
{
    let mut parts: Vec<Vec<u8>> = Vec::new();
    let mut cur: Vec<u8> = Vec::new();
    let mut i: usize = 0;
    while i < s.len()
        invariant
            0 <= i <= s.len(),
            parts@.map_values(|v: Vec<u8>| v@).push(cur@) == split_on(s@.subrange(0, i as int), sep),
        decreases s.len() - i,
    {
        let ghost prefix = s@.subrange(0, i as int);
        let ghost next = s@.subrange(0, i as int + 1);
        assert(next.drop_last() == prefix);
        let ghost before = parts@.map_values(|v: Vec<u8>| v@).push(cur@);
        if s[i] == sep {
            parts.push(cur);
            cur = Vec::new();
            assert(parts@.map_values(|v: Vec<u8>| v@).push(cur@) =~= before.push(Seq::<u8>::empty()));
        } else {
            cur.push(s[i]);
            assert(parts@.map_values(|v: Vec<u8>| v@).push(cur@) =~= before.update(
                before.len() - 1,
                before.last().push(s@[i as int]),
            ));
        }
        i = i + 1;
    }
    assert(s@.subrange(0, s@.len() as int) == s@);
    parts.push(cur);
    assert(parts@.map_values(|v: Vec<u8>| v@) =~= split_on(s@, sep));
    parts
}

/// The `u32` that `field` writes in decimal, if it writes one that fits.
pub fn parse_field(field: &[u8]) -> (r: Option<u32>)
    ensures
        r == field_value(field@),
{
    let start: usize = if field.len() > 0 && field[0] == 43u8 { 1 } else { 0 };
    let ghost d = field_digits(field@);
    assert(d =~= field@.subrange(start as int, field@.len() as int));
    if start >= field.len() {
        return None;
    }
    let mut value: u64 = 0;
    let mut i: usize = start;
    while i < field.len()
        invariant
            start <= i <= field.len(),
            start < field.len(),
            d == field_digits(field@),
            d == field@.subrange(start as int, field@.len() as int),
            forall|k: int| 0 <= k < i - start ==> is_digit(#[trigger] d[k]),
            value == decimal_value(d.subrange(0, i - start)),
            value <= u32::MAX,
        decreases field.len() - i,
    {
        let b = field[i];
        assert(d.subrange(0, i - start + 1).drop_last() == d.subrange(0, i - start));
        assert(d[i - start] == b);
        if b < 48u8 || b > 57u8 {
            assert(!is_digit(d[i - start]));
            return None;
        }
        let next = value * 10 + (b - 48u8) as u64;
        if next > 4294967295u64 {
            proof {
                if forall|k: int| 0 <= k < d.len() ==> is_digit(#[trigger] d[k]) {
                    assert(d.subrange(0, i - start + 1).drop_last() == d.subrange(0, i - start));
                    lemma_decimal_grows(d, (i - start + 1) as int);
                }
            }
            return None;
        }
        value = next;
        i = i + 1;
    }
    assert(d.subrange(0, d.len() as int) == d);
    Some(value as u32)
}

/// The lines of `text` (see `lines_of`).
fn split_lines(text: &[u8]) -> (r: Vec<Vec<u8>>)
    ensures
        r@.map_values(|v: Vec<u8>| v@) == lines_of(text@),
{
    if text.len() == 0 {
        let r: Vec<Vec<u8>> = Vec::new();
        assert(r@.map_values(|v: Vec<u8>| v@) =~= lines_of(text@));
        return r;
    }
    let mut parts = split_bytes(text, 10u8);
    let ghost whole = parts@.map_values(|v: Vec<u8>| v@);
    let ghost kept: Seq<Seq<u8>> = if text@.last() == 10u8 { whole.drop_last() } else { whole };
    if text[text.len() - 1] == 10u8 {
        parts.pop();
    }
    assert(parts@.map_values(|v: Vec<u8>| v@) =~= kept);
    assert forall|k: int| 0 <= k < kept.len() implies (#[trigger] parts@[k])@ == kept[k] by {
        assert(parts@.map_values(|v: Vec<u8>| v@)[k] == parts@[k]@);
    }
    let mut r: Vec<Vec<u8>> = Vec::new();
    let mut i: usize = 0;
    while i < parts.len()
        invariant
            0 <= i <= parts.len(),
            parts@.len() == kept.len(),
            forall|k: int| 0 <= k < kept.len() ==> (#[trigger] parts@[k])@ == kept[k],
            r@.len() == i,
            forall|k: int| 0 <= k < i ==> (#[trigger] r@[k])@ == without_cr(kept[k]),
        decreases parts.len() - i,
    {
        let mut line = parts[i].clone();
        assert(line@ == kept[i as int]);
        if line.len() > 0 && line[line.len() - 1] == 13u8 {
            line.pop();
        }
        r.push(line);
        i = i + 1;
    }
    assert(r@.map_values(|v: Vec<u8>| v@) =~= kept.map_values(|l: Seq<u8>| without_cr(l)));
    r
}

/// A row that fails to parse fails however many fields follow.
proof fn lemma_row_none_extends(fields: Seq<Seq<u8>>, n: int, y: u32)
    requires
        0 <= n <= fields.len(),
        row_tiles(fields.subrange(0, n), y) is None,
    ensures
        row_tiles(fields, y) is None,
    decreases fields.len() - n,
{
    if n < fields.len() {
        assert(fields.subrange(0, n + 1).drop_last() == fields.subrange(0, n));
        lemma_row_none_extends(fields, n + 1, y);
    } else {
        assert(fields.subrange(0, n) == fields);
    }
}

/// A map that fails to parse fails however many lines follow.
proof fn lemma_map_none_extends(lines: Seq<Seq<u8>>, n: int)
    requires
        0 <= n <= lines.len(),
        map_tiles(lines.subrange(0, n)) is None,
    ensures
        map_tiles(lines) is None,
    decreases lines.len() - n,
{
    if n < lines.len() {
        assert(lines.subrange(0, n + 1).drop_last() == lines.subrange(0, n));
        lemma_map_none_extends(lines, n + 1);
    } else {
        assert(lines.subrange(0, n) == lines);
    }
}

/// The tiles of a map written as lines of comma-separated sprite ids: the
/// field in column `x` of line `y` gives the tile at `(x, y)`. `None` if a
/// field is not a decimal `u32`.
pub fn parse_map(text: &[u8]) -> (r: Option<Vec<Tile>>)
    ensures
        match r {
            Some(v) => map_tiles(lines_of(text@)) == Some(v@),
            None => map_tiles(lines_of(text@)) is None,
        },
{
    let lines = split_lines(text);
    let ghost ls = lines@.map_values(|v: Vec<u8>| v@);
    let mut tiles: Vec<Tile> = Vec::new();
    let mut y: usize = 0;
    assert(ls.subrange(0, 0) =~= Seq::<Seq<u8>>::empty());
    while y < lines.len()
        invariant
            0 <= y <= lines.len(),
            ls == lines@.map_values(|v: Vec<u8>| v@),
            ls == lines_of(text@),
            map_tiles(ls.subrange(0, y as int)) == Some(tiles@),
        decreases lines.len() - y,
    {
        let fields = split_bytes(lines[y].as_slice(), 44u8);
        let ghost fs = fields@.map_values(|v: Vec<u8>| v@);
        let ghost row_y = #[verifier::truncate] (y as u32);
        let ghost base = tiles@;
        assert(fs == split_on(ls[y as int], 44u8));
        let mut x: usize = 0;
        assert(fs.subrange(0, 0) =~= Seq::<Seq<u8>>::empty());
        assert(base + Seq::<Tile>::empty() =~= base);
        while x < fields.len()
            invariant
                0 <= x <= fields.len(),
                0 <= y < lines.len(),
                row_y == #[verifier::truncate] (y as u32),
                ls == lines@.map_values(|v: Vec<u8>| v@),
                ls == lines_of(text@),
                fs == fields@.map_values(|v: Vec<u8>| v@),
                fs == split_on(ls[y as int], 44u8),
                exists|row: Seq<Tile>| row_tiles(fs.subrange(0, x as int), row_y) == Some(row) && tiles@ == base + row,
            decreases fields.len() - x,
        {
            assert(fs.subrange(0, x as int + 1).drop_last() == fs.subrange(0, x as int));
            assert(fs.subrange(0, x as int + 1).last() == fields@[x as int]@);
            match parse_field(fields[x].as_slice()) {
                Some(v) => {
                    let ghost row = choose|row: Seq<Tile>| row_tiles(fs.subrange(0, x as int), row_y) == Some(row) && tiles@ == base + row;
                    tiles.push(Tile { x: #[verifier::truncate] (x as u32), y: #[verifier::truncate] (y as u32), sprite_id: v });
                    let ghost t = Tile { x: #[verifier::truncate] (x as u32), y: row_y, sprite_id: v };
                    assert(tiles@ == base + row.push(t));
                    assert(row_tiles(fs.subrange(0, x as int + 1), row_y) == Some(row.push(t)));
                },
                None => {
                    proof {
                        lemma_row_none_extends(fs, x as int + 1, row_y);
                        assert(ls.subrange(0, y as int + 1).drop_last() == ls.subrange(0, y as int));
                        assert(ls.subrange(0, y as int + 1).last() == ls[y as int]);
                        assert(row_tiles(split_on(ls[y as int], 44u8), row_y) is None);
                        let lp = ls.subrange(0, y as int + 1);
                        assert(lp.drop_last() == ls.subrange(0, y as int));
                        assert(lp.last() == ls[y as int]);
                        assert(#[verifier::truncate] ((lp.len() - 1) as u32) == row_y);
                        assert(map_tiles(lp) is None);
                        lemma_map_none_extends(ls, y as int + 1);
                    }
                    return None;
                },
            }
            x = x + 1;
        }
        proof {
            assert(fs.subrange(0, fs.len() as int) == fs);
            assert(ls.subrange(0, y as int + 1).drop_last() == ls.subrange(0, y as int));
            assert(ls.subrange(0, y as int + 1).last() == ls[y as int]);
        }
        y = y + 1;
    }
    assert(ls.subrange(0, ls.len() as int) == ls);
    Some(tiles)
}

/// A longer run of digits writes at least as large a number.
proof fn lemma_decimal_grows(d: Seq<u8>, n: int)
    requires
        0 <= n <= d.len(),
        forall|k: int| 0 <= k < d.len() ==> is_digit(#[trigger] d[k]),
    ensures
        decimal_value(d) >= decimal_value(d.subrange(0, n)),
    decreases d.len() - n,
{
    if n < d.len() {
        lemma_decimal_grows(d, n + 1);
        assert(d.subrange(0, n + 1).drop_last() == d.subrange(0, n));
        assert(is_digit(d[n]));
        let p = d.subrange(0, n);
        assert forall|k: int| 0 <= k < p.len() implies is_digit(#[trigger] p[k]) by {
            assert(p[k] == d[k]);
        }
        lemma_decimal_nonneg(p);
        assert(decimal_value(d.subrange(0, n + 1)) >= decimal_value(d.subrange(0, n))) by (nonlinear_arith)
            requires
                decimal_value(d.subrange(0, n + 1)) == decimal_value(d.subrange(0, n)) * 10 + (d[n] - 48u8),
                decimal_value(d.subrange(0, n)) >= 0,
                d[n] >= 48u8,
        {
        }
    } else {
        assert(d.subrange(0, n) == d);
    }
}

proof fn lemma_decimal_nonneg(d: Seq<u8>)
    requires
        forall|k: int| 0 <= k < d.len() ==> is_digit(#[trigger] d[k]),
    ensures
        decimal_value(d) >= 0,
    decreases d.len(),
{
    if d.len() > 0 {
        let t = d.drop_last();
        assert forall|k: int| 0 <= k < t.len() implies is_digit(#[trigger] t[k]) by {
            assert(t[k] == d[k]);
        }
        lemma_decimal_nonneg(t);
        assert(is_digit(d[d.len() - 1]));
    }
}

} // verus!
