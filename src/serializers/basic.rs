use vstd::prelude::*;
use vstd::std_specs::iter::IteratorSpec;

use crate::models::actors::bandid::{self, bandit};
use crate::models::actors::mountain::{self, mountain};
use crate::models::actors::player::{self, player};
use crate::models::actors::water::{self, water};
use crate::models::coordinate::Coordinate;
use crate::models::entity::{Entity, EntityType};
use crate::models::first_match::{first_index, lemma_first_index, lemma_none_of};
use crate::models::world::{entity_at, ids_unique, occupied, on_cell, with_id, World};

verus! {

// The text format of a map: one line per row of cells, joined by '\n', one
// character per cell.
//
// ' '  an empty cell        'B'  a bandit
// '1'  player one           '#'  a mountain
// '2'  player two           '~'  water

/// The lines of `t`: the pieces between the '\n' characters. There is always
/// at least one, possibly empty.
pub open spec fn lines_of(t: Seq<char>) -> Seq<Seq<char>>
    decreases t.len(),
{
    if t.len() == 0 {
        seq![Seq::<char>::empty()]
    } else {
        let before = lines_of(t.drop_last());
        if t.last() == '\n' {
            before.push(Seq::<char>::empty())
        } else {
            before.update(before.len() - 1, before.last().push(t.last()))
        }
    }
}

/// `lines` joined with a '\n' between each two.
pub open spec fn joined(lines: Seq<Seq<char>>) -> Seq<char>
    decreases lines.len(),
{
    if lines.len() == 0 {
        Seq::empty()
    } else if lines.len() == 1 {
        lines[0]
    } else {
        joined(lines.drop_last()) + seq!['\n'] + lines.last()
    }
}

/// The number of characters in `lines`, separators not counted.
pub open spec fn total_len(lines: Seq<Seq<char>>) -> int
    decreases lines.len(),
{
    if lines.len() == 0 {
        0
    } else {
        total_len(lines.drop_last()) + lines.last().len()
    }
}

/// A character that a map text may hold in a cell.
pub open spec fn is_glyph(c: char) -> bool {
    c == ' ' || c == '1' || c == '2' || c == 'B' || c == '#' || c == '~'
}

/// `t` describes a map: its lines all have the length of the first, and
/// hold glyphs only.
pub open spec fn is_map_text(t: Seq<char>) -> bool {
    let lines = lines_of(t);
    &&& forall|y: int| 0 <= y < lines.len() ==> (#[trigger] lines[y]).len() == lines[0].len()
    &&& forall|y: int, x: int|
        0 <= y < lines.len() && 0 <= x < lines[y].len() ==> is_glyph(#[trigger] lines[y][x])
}

/// The entity that glyph `c` puts on `coord`, before it gets an id.
pub open spec fn glyph_entity(c: char, coord: Coordinate) -> Option<Entity> {
    if c == '1' {
        Some(player(1, coord))
    } else if c == '2' {
        Some(player(2, coord))
    } else if c == 'B' {
        Some(bandit(coord))
    } else if c == '#' {
        Some(mountain(coord))
    } else if c == '~' {
        Some(water(coord))
    } else {
        None
    }
}

/// `e` is, but for its id, the entity that glyph `c` puts where `e` stands.
pub open spec fn drawn_as(e: Entity, c: char) -> bool {
    glyph_entity(c, e.coord) == Some(Entity { id: 0, ..e })
}

/// `e` stands on a cell of `lines` whose glyph describes it.
pub open spec fn placed(lines: Seq<Seq<char>>, e: Entity) -> bool {
    &&& 0 <= e.coord.y < lines.len()
    &&& 0 <= e.coord.x < lines[e.coord.y as int].len()
    &&& drawn_as(e, lines[e.coord.y as int][e.coord.x as int])
}

/// Cell `a` comes before cell `b` in reading order: by row, then by column.
pub open spec fn reads_before(a: Coordinate, b: Coordinate) -> bool {
    a.y < b.y || (a.y == b.y && a.x < b.x)
}

/// `world` is the world that the map text `text` describes. The text has
/// fewer than `i32::MAX` characters, so that every cell has `i32`
/// coordinates. The bounds of the world are those of the text, and it holds
/// one entity for each glyph that stands for one, in reading order, with the
/// ids 1, 2, ... in that order.
pub open spec fn loads_as(text: Seq<char>, world: World) -> bool {
    let lines = lines_of(text);
    let e = world.entity_list();
    &&& text.len() < i32::MAX
    &&& world.left() == Coordinate { x: 0, y: 0 }
    &&& world.right() == Coordinate {
        x: (lines[0].len() - 1) as i32,
        y: (lines.len() - 1) as i32,
    }
    &&& world.controllers() == Seq::<crate::controllers::player::PlayerController>::empty()
    &&& world.inputs() == Seq::<(i32, crate::controllers::player::PlayerInput)>::empty()
    &&& world.queued() == Seq::<crate::actions::action::ActionData>::empty()
    &&& world.last_id() == e.len()
    &&& forall|j: int| 0 <= j < e.len() ==> (#[trigger] e[j]).id == j + 1 && placed(lines, e[j])
    &&& forall|j: int, k: int|
        0 <= j < k < e.len() ==> reads_before((#[trigger] e[j]).coord, (#[trigger] e[k]).coord)
    &&& forall|y: int, x: int|
        0 <= y < lines.len() && 0 <= x < lines[y].len() && (glyph_entity(
            #[trigger] lines[y][x],
            Coordinate { x: x as i32, y: y as i32 },
        ) is Some) ==> occupied(e, x, y)
}

/// The character of decimal digit `d`.
pub open spec fn digit(d: int) -> char {
    ((48 + d) as u8) as char
}

/// The decimal digits of `n`.
pub open spec fn digits(n: nat) -> Seq<char>
    decreases n,
{
    if n < 10 {
        seq![digit(n as int)]
    } else {
        digits(n / 10) + seq![digit((n % 10) as int)]
    }
}

/// `n` written in decimal.
pub open spec fn number_text(n: int) -> Seq<char> {
    if n < 0 {
        seq!['-'] + digits((-n) as nat)
    } else {
        digits(n as nat)
    }
}

/// How an entity of kind `t` is drawn: a player by its number, anything else
/// by its glyph.
pub open spec fn glyph_text(t: EntityType) -> Seq<char> {
    match t {
        EntityType::Player(n) => number_text(n as int),
        EntityType::Enemy(c) => seq![c],
        EntityType::Obstacle(c) => seq![c],
        EntityType::Hole(c) => seq![c],
    }
}

/// How cell `(x, y)` of the entities `s` is drawn: by the entity on it, or as
/// a space.
pub open spec fn cell_text(s: Seq<Entity>, x: int, y: int) -> Seq<char> {
    match entity_at(s, x, y) {
        Some(e) => glyph_text(e.entity_type),
        None => seq![' '],
    }
}

/// The first `n` cells of row `y`, drawn.
pub open spec fn row_text(s: Seq<Entity>, y: int, n: int) -> Seq<char>
    decreases n,
{
    if n <= 0 {
        Seq::empty()
    } else {
        row_text(s, y, n - 1) + cell_text(s, n - 1, y)
    }
}

/// The text of `world`: the rows from 0 to the upper edge, each drawn from
/// column 0 to the upper edge.
pub open spec fn printed(world: World) -> Seq<char> {
    let width = if world.right().x + 1 < 0 {
        0
    } else {
        world.right().x + 1
    };
    let height = if world.right().y + 1 < 0 {
        0
    } else {
        world.right().y + 1
    };
    joined(Seq::new(height as nat, |y: int| row_text(world.entity_list(), y, width)))
}

/// `v` seen as lines of characters.
pub open spec fn lines_view(v: Seq<Vec<char>>) -> Seq<Seq<char>> {
    Seq::new(v.len(), |i: int| v[i]@)
}

/// Splitting a text into lines and joining them again gives the text back;
/// the lines hold all characters but the separators.
pub proof fn lemma_lines_of(t: Seq<char>)
    ensures
        lines_of(t).len() >= 1,
        joined(lines_of(t)) == t,
        total_len(lines_of(t)) + lines_of(t).len() - 1 == t.len(),
    decreases t.len(),
{
    if t.len() > 0 {
        let p = t.drop_last();
        let c = t.last();
        assert(t == p.push(c));
        lemma_lines_of(p);
        let before = lines_of(p);
        let lines = lines_of(t);
        let k = before.len() - 1;
        assert(total_len(before) == total_len(before.drop_last()) + before[k].len());
        if before.len() > 1 {
            assert(joined(before) == joined(before.drop_last()) + seq!['\n'] + before[k]);
        }
        if c == '\n' {
            assert(lines == before.push(Seq::<char>::empty()));
            assert(lines.drop_last() == before);
            assert(total_len(lines) == total_len(before));
            assert(joined(lines) == joined(before) + seq!['\n'] + Seq::<char>::empty());
            assert(joined(lines) =~= t);
        } else {
            assert(lines == before.update(k, before[k].push(c)));
            assert(lines.len() == before.len());
            assert(lines.last() == before[k].push(c));
            assert(lines.drop_last() =~= before.drop_last());
            assert(total_len(lines) == total_len(before.drop_last()) + before[k].len() + 1);
            if before.len() == 1 {
                assert(joined(lines) == before[0].push(c));
            } else {
                assert(joined(lines) == joined(before.drop_last()) + seq!['\n'] + before[k].push(
                    c,
                ));
            }
            assert(joined(lines) =~= t);
        }
    } else {
        let lines = lines_of(t);
        assert(lines.drop_last() =~= Seq::<Seq<char>>::empty());
        assert(total_len(lines.drop_last()) == 0);
    }
}

/// A line is no longer than all lines together, nor is a first part of them.
pub proof fn lemma_total_len(lines: Seq<Seq<char>>, k: int)
    requires
        0 <= k <= lines.len(),
    ensures
        total_len(lines.subrange(0, k)) <= total_len(lines),
        total_len(lines.subrange(0, k)) >= 0,
        k < lines.len() ==> total_len(lines.subrange(0, k + 1)) == total_len(
            lines.subrange(0, k),
        ) + lines[k].len(),
    decreases lines.len(),
{
    if k < lines.len() {
        assert(lines.subrange(0, k + 1).drop_last() == lines.subrange(0, k));
    }
    if lines.len() > 0 {
        if k == lines.len() {
            assert(lines.subrange(0, k) == lines);
            lemma_total_len(lines.drop_last(), k - 1);
            assert(lines.drop_last().subrange(0, k - 1) == lines.drop_last());
        } else {
            lemma_total_len(lines.drop_last(), k);
            assert(lines.drop_last().subrange(0, k) == lines.subrange(0, k));
        }
    }
}

/// A cell of a loaded map is drawn as the glyph that the text holds there.
proof fn lemma_cell_text(text: Seq<char>, world: World, x: int, y: int)
    requires
        is_map_text(text),
        loads_as(text, world),
        0 <= y < lines_of(text).len(),
        0 <= x < lines_of(text)[y].len(),
        y <= i32::MAX,
        x <= i32::MAX,
    ensures
        cell_text(world.entity_list(), x, y) == seq![lines_of(text)[y][x]],
{
    let ls = lines_of(text);
    let e = world.entity_list();
    let c = ls[y][x];
    assert(is_glyph(c));
    if glyph_entity(c, Coordinate { x: x as i32, y: y as i32 }) is Some {
        assert(occupied(e, x, y));
        lemma_first_index(e, on_cell(x, y));
        let i = first_index(e, on_cell(x, y));
        assert(placed(ls, e[i]));
        assert(e[i].coord == Coordinate { x: x as i32, y: y as i32 });
        assert(entity_at(e, x, y) == Some(e[i]));
        reveal_with_fuel(digits, 1);
        assert(glyph_text(e[i].entity_type) == seq![c]);
    } else {
        assert(c == ' ');
        assert forall|j: int| 0 <= j < e.len() implies !(#[trigger] on_cell(x, y)(e[j])) by {
            if on_cell(x, y)(e[j]) {
                assert(placed(ls, e[j]));
            }
        }
        lemma_none_of(e, on_cell(x, y));
    }
}

/// The first `n` cells of a row of a loaded map are drawn as the text holds
/// them.
proof fn lemma_row_text(text: Seq<char>, world: World, y: int, n: int)
    requires
        is_map_text(text),
        loads_as(text, world),
        0 <= y < lines_of(text).len(),
        0 <= n <= lines_of(text)[y].len(),
        y <= i32::MAX,
        lines_of(text)[y].len() <= i32::MAX + 1,
    ensures
        row_text(world.entity_list(), y, n) == lines_of(text)[y].subrange(0, n),
    decreases n,
{
    let ls = lines_of(text);
    if n > 0 {
        lemma_row_text(text, world, y, n - 1);
        lemma_cell_text(text, world, n - 1, y);
        assert(ls[y].subrange(0, n) =~= ls[y].subrange(0, n - 1) + seq![ls[y][n - 1]]);
    } else {
        assert(ls[y].subrange(0, 0) =~= Seq::<char>::empty());
    }
}

/// Printing the world that a map text loads as gives the text back.
pub proof fn lemma_print_load(text: Seq<char>, world: World)
    requires
        is_map_text(text),
        loads_as(text, world),
    ensures
        printed(world) == text,
{
    let ls = lines_of(text);
    let e = world.entity_list();
    lemma_lines_of(text);
    lemma_total_len(ls, 1);
    lemma_total_len(ls, 0);
    assert(ls.subrange(0, 0) =~= Seq::<Seq<char>>::empty());
    let w = ls[0].len() as int;
    let h = ls.len() as int;
    assert(world.right().x + 1 == w);
    assert(world.right().y + 1 == h);
    let rows = Seq::new(h as nat, |y: int| row_text(e, y, w));
    assert forall|y: int| 0 <= y < h implies #[trigger] rows[y] == ls[y] by {
        assert(ls[y].len() == w);
        lemma_row_text(text, world, y, w);
        assert(ls[y].subrange(0, w) =~= ls[y]);
    }
    assert(rows =~= ls);
}

/// The characters of `s`, in order.
fn chars_of(s: &str) -> (r: Vec<char>)
    ensures
        r@ == s@,
{
    broadcast use vstd::string::group_string_axioms;

    let mut out: Vec<char> = Vec::new();
    let mut it = s.chars();
    loop
        invariant
            out@ + it.remaining() == s@,
        ensures
            out@ == s@,
        decreases s@.len() - out@.len(),
    {
        match it.next() {
            Some(c) => {
                out.push(c);
            },
            None => {
                assert(out@ + it.remaining() == out@);
                break;
            },
        }
    }
    out
}

/// Relies on `String`'s `FromIterator<char>`: the string of the characters
/// of `v`, in order.
#[verifier::external_body]
fn string_of(v: &Vec<char>) -> (r: String)
    ensures
        r@ == v@,
{
    v.iter().collect()
}

/// The lines of `text`.
fn split_lines(text: &Vec<char>) -> (r: Vec<Vec<char>>)
    ensures
        lines_view(r@) == lines_of(text@),
{
    let mut lines: Vec<Vec<char>> = Vec::new();
    let mut current: Vec<char> = Vec::new();
    let mut i: usize = 0;
    proof {
        assert(text@.subrange(0, 0) == Seq::<char>::empty());
        assert(lines_view(lines@).push(current@) =~= seq![Seq::<char>::empty()]);
    }
    while i < text.len()
        invariant
            0 <= i <= text@.len(),
            lines_view(lines@).push(current@) == lines_of(text@.subrange(0, i as int)),
        decreases text@.len() - i,
    {
        let ghost before = lines_view(lines@).push(current@);
        proof {
            assert(text@.subrange(0, i + 1).drop_last() == text@.subrange(0, i as int));
        }
        if text[i] == '\n' {
            lines.push(current);
            current = Vec::new();
            proof {
                assert(lines_view(lines@).push(current@) =~= before.push(Seq::<char>::empty()));
            }
        } else {
            current.push(text[i]);
            proof {
                assert(lines_view(lines@).push(current@) =~= before.update(
                    before.len() - 1,
                    before.last().push(text@[i as int]),
                ));
            }
        }
        i += 1;
    }
    lines.push(current);
    proof {
        assert(text@.subrange(0, text@.len() as int) == text@);
        assert(lines_view(lines@) =~= lines_of(text@));
    }
    lines
}

/// Registers the entities that the glyphs of `line`, row `y` of a map, stand
/// for, from left to right.
fn load_line(world: &mut World, y: usize, line: &Vec<char>)
    requires
        forall|j: int|
            0 <= j < old(world).entity_list().len() ==> (#[trigger] old(world).entity_list()[j]).id
                <= old(world).last_id(),
        old(world).last_id() + line@.len() < i32::MAX,
        line@.len() <= i32::MAX + 1,
        y <= i32::MAX,
    ensures
        final(world).same_but_entities_and_ids(old(world)),
        ({
            let before = old(world).entity_list();
            let after = final(world).entity_list();
            let added = after.subrange(before.len() as int, after.len() as int);
            &&& before.len() <= after.len() <= before.len() + line@.len()
            &&& after.subrange(0, before.len() as int) == before
            &&& final(world).last_id() == old(world).last_id() + added.len()
            &&& forall|k: int|
                0 <= k < added.len() ==> {
                    let e = #[trigger] added[k];
                    &&& e.id == old(world).last_id() + k + 1
                    &&& e.coord.y == y
                    &&& 0 <= e.coord.x < line@.len()
                    &&& drawn_as(e, line@[e.coord.x as int])
                }
            &&& forall|j: int, k: int|
                0 <= j < k < added.len() ==> (#[trigger] added[j]).coord.x
                    < (#[trigger] added[k]).coord.x
            &&& forall|x: int|
                0 <= x < line@.len() && (glyph_entity(
                    #[trigger] line@[x],
                    Coordinate { x: x as i32, y: y as i32 },
                ) is Some) ==> occupied(added, x, y as int)
        }),
{
    let ghost before = world.entity_list();
    let ghost n0 = before.len() as int;
    let ghost first_id = world.last_id();
    let mut x: usize = 0;
    proof {
        assert(world.entity_list().subrange(n0, n0) =~= Seq::<Entity>::empty());
        assert(world.entity_list().subrange(0, n0) =~= before);
    }
    while x < line.len()
        invariant
            0 <= x <= line@.len(),
            y <= i32::MAX,
            before == old(world).entity_list(),
            n0 == before.len(),
            first_id == old(world).last_id(),
            first_id + line@.len() < i32::MAX,
            line@.len() <= i32::MAX + 1,
            world.same_but_entities_and_ids(old(world)),
            n0 <= world.entity_list().len() <= n0 + x,
            world.entity_list().subrange(0, n0) == before,
            world.last_id() == first_id + (world.entity_list().len() - n0),
            forall|j: int|
                0 <= j < world.entity_list().len() ==> (#[trigger] world.entity_list()[j]).id
                    <= world.last_id(),
            forall|k: int|
                0 <= k < world.entity_list().len() - n0 ==> {
                    let e = #[trigger] world.entity_list().subrange(
                        n0,
                        world.entity_list().len() as int,
                    )[k];
                    &&& e.id == first_id + k + 1
                    &&& e.coord.y == y
                    &&& 0 <= e.coord.x < x
                    &&& drawn_as(e, line@[e.coord.x as int])
                },
            forall|j: int, k: int|
                0 <= j < k < world.entity_list().len() - n0 ==> (
                #[trigger] world.entity_list().subrange(n0, world.entity_list().len() as int)[j]).coord.x
                    < (#[trigger] world.entity_list().subrange(
                    n0,
                    world.entity_list().len() as int,
                )[k]).coord.x,
            forall|x2: int|
                0 <= x2 < x && (glyph_entity(
                    #[trigger] line@[x2],
                    Coordinate { x: x2 as i32, y: y as i32 },
                ) is Some) ==> occupied(
                    world.entity_list().subrange(n0, world.entity_list().len() as int),
                    x2,
                    y as int,
                ),
        decreases line@.len() - x,
    {
        let coord = Coordinate::new(x as i32, y as i32);
        let c = line[x];
        let entity: Option<Entity> = if c == '1' {
            Some(player::create_at(1, coord))
        } else if c == '2' {
            Some(player::create_at(2, coord))
        } else if c == 'B' {
            Some(bandid::create_at(coord))
        } else if c == '#' {
            Some(mountain::create_at(coord))
        } else if c == '~' {
            Some(water::create_at(coord))
        } else {
            None
        };
        if let Some(entity) = entity {
            let ghost s = world.entity_list();
            let ghost old_added = s.subrange(n0, s.len() as int);
            let ghost next_id = world.last_id() + 1;
            proof {
                old(world).lemma_last_id_bounds();
                assert forall|j: int| 0 <= j < s.len() implies !(#[trigger] with_id(
                    next_id as i32,
                )(s[j])) by {}
            }
            let placed = world.register(entity);
            proof {
                let t = world.entity_list();
                let added = t.subrange(n0, t.len() as int);
                assert(t == s.push(placed));
                assert(added =~= old_added.push(placed));
                assert(t.subrange(0, n0) =~= s.subrange(0, n0));
                assert(on_cell(x as int, y as int)(added[old_added.len() as int]));
                assert forall|x2: int|
                    0 <= x2 < x + 1 && (glyph_entity(
                        #[trigger] line@[x2],
                        Coordinate { x: x2 as i32, y: y as i32 },
                    ) is Some) implies occupied(added, x2, y as int) by {
                    if x2 < x {
                        let i = choose|i: int|
                            0 <= i < old_added.len() && #[trigger] on_cell(x2, y as int)(
                                old_added[i],
                            );
                        assert(on_cell(x2, y as int)(added[i]));
                    }
                }
                assert forall|k: int| 0 <= k < added.len() implies {
                    let e = #[trigger] added[k];
                    &&& e.id == first_id + k + 1
                    &&& e.coord.y == y
                    &&& 0 <= e.coord.x < x + 1
                    &&& drawn_as(e, line@[e.coord.x as int])
                } by {
                    if k < old_added.len() {
                        assert(added[k] == old_added[k]);
                    } else {
                        assert(added[k] == placed);
                        assert(placed.coord == coord);
                        assert(placed.id == first_id + k + 1);
                        assert(line@[placed.coord.x as int] == c);
                        assert(drawn_as(placed, c));
                    }
                }
                assert forall|j: int, k: int| 0 <= j < k < added.len() implies (
                #[trigger] added[j]).coord.x < (#[trigger] added[k]).coord.x by {
                    assert(added[j] == old_added[j]);
                    if k < old_added.len() {
                        assert(added[k] == old_added[k]);
                    }
                }
            }
        }
        x += 1;
    }
}

/// The world that the map text `raw` describes: its bounds run from (0,0) to
/// the last column and row of the text, and each glyph but ' ' is registered
/// as an entity, in reading order.
pub fn load(raw: &str) -> (r: World)
    requires
        is_map_text(raw@),
        raw@.len() < i32::MAX,
    ensures
        r.wf(),
        loads_as(raw@, r),
{
    let text = chars_of(raw);
    let lines = split_lines(&text);
    let ghost ls = lines_of(raw@);
    proof {
        lemma_lines_of(raw@);
        lemma_total_len(ls, 1);
        lemma_total_len(ls, 0);
        assert(ls.subrange(0, 0) =~= Seq::<Seq<char>>::empty());
        assert(lines@[0]@ == ls[0]);
    }
    let width = lines[0].len();
    let height = lines.len();
    let mut world = World::create(Coordinate::new(width as i32 - 1, height as i32 - 1));
    let mut y: usize = 0;
    while y < height
        invariant
            0 <= y <= height,
            height == ls.len(),
            lines_view(lines@) == ls,
            ls == lines_of(raw@),
            total_len(ls) + ls.len() - 1 == raw@.len(),
            raw@.len() < i32::MAX,
            world.left() == (Coordinate { x: 0, y: 0 }),
            world.right() == (Coordinate { x: (ls[0].len() - 1) as i32, y: (ls.len() - 1) as i32 }),
            world.controllers() == Seq::<crate::controllers::player::PlayerController>::empty(),
            world.inputs() == Seq::<(i32, crate::controllers::player::PlayerInput)>::empty(),
            world.queued() == Seq::<crate::actions::action::ActionData>::empty(),
            world.last_id() == world.entity_list().len(),
            world.entity_list().len() <= total_len(ls.subrange(0, y as int)),
            forall|j: int|
                0 <= j < world.entity_list().len() ==> (#[trigger] world.entity_list()[j]).id == j
                    + 1 && world.entity_list()[j].coord.y < y && placed(ls, world.entity_list()[j]),
            forall|j: int, k: int|
                0 <= j < k < world.entity_list().len() ==> reads_before(
                    (#[trigger] world.entity_list()[j]).coord,
                    (#[trigger] world.entity_list()[k]).coord,
                ),
            forall|y2: int, x: int|
                0 <= y2 < y && 0 <= x < ls[y2].len() && (glyph_entity(
                    #[trigger] ls[y2][x],
                    Coordinate { x: x as i32, y: y2 as i32 },
                ) is Some) ==> occupied(world.entity_list(), x, y2),
        decreases height - y,
    {
        let ghost s = world.entity_list();
        proof {
            lemma_total_len(ls, y as int);
            lemma_total_len(ls, y + 1);
            assert(lines@[y as int]@ == ls[y as int]);
        }
        load_line(&mut world, y, &lines[y]);
        proof {
            let t = world.entity_list();
            let added = t.subrange(s.len() as int, t.len() as int);
            assert forall|j: int| 0 <= j < s.len() implies #[trigger] t[j] == s[j] by {
                assert(t.subrange(0, s.len() as int)[j] == t[j]);
            }
            assert forall|j: int| s.len() <= j < t.len() implies #[trigger] t[j] == added[j
                - s.len()] by {}
            assert forall|y2: int, x: int|
                0 <= y2 < y + 1 && 0 <= x < ls[y2].len() && (glyph_entity(
                    #[trigger] ls[y2][x],
                    Coordinate { x: x as i32, y: y2 as i32 },
                ) is Some) implies occupied(t, x, y2) by {
                if y2 < y {
                    let i = choose|i: int| 0 <= i < s.len() && #[trigger] on_cell(x, y2)(s[i]);
                    assert(on_cell(x, y2)(t[i]));
                } else {
                    let i = choose|i: int|
                        0 <= i < added.len() && #[trigger] on_cell(x, y2)(added[i]);
                    assert(on_cell(x, y2)(t[i + s.len()]));
                }
            }
        }
        y += 1;
    }
    proof {
        assert(ls.subrange(0, ls.len() as int) == ls);
        assert(ids_unique(world.entity_list()));
    }
    world
}

/// Whether `raw` is a map text that `load` accepts: lines of one length,
/// glyphs only, and fewer than `i32::MAX` characters.
pub fn is_map(raw: &str) -> (r: bool)
    ensures
        r == (is_map_text(raw@) && raw@.len() < i32::MAX),
{
    let text = chars_of(raw);
    if text.len() >= i32::MAX as usize {
        return false;
    }
    let lines = split_lines(&text);
    let ghost ls = lines_of(raw@);
    proof {
        lemma_lines_of(raw@);
        assert(lines@[0]@ == ls[0]);
    }
    let width = lines[0].len();
    let mut y: usize = 0;
    while y < lines.len()
        invariant
            0 <= y <= ls.len(),
            lines_view(lines@) == ls,
            ls == lines_of(raw@),
            ls.len() >= 1,
            width == ls[0].len(),
            forall|y2: int| 0 <= y2 < y ==> (#[trigger] ls[y2]).len() == ls[0].len(),
            forall|y2: int, x: int|
                0 <= y2 < y && 0 <= x < ls[y2].len() ==> is_glyph(#[trigger] ls[y2][x]),
        decreases ls.len() - y,
    {
        let line = &lines[y];
        proof {
            assert(line@ == ls[y as int]);
        }
        if line.len() != width {
            return false;
        }
        let mut x: usize = 0;
        while x < line.len()
            invariant
                0 <= x <= line@.len(),
                0 <= y < ls.len(),
                ls == lines_of(raw@),
                line@ == ls[y as int],
                forall|x2: int| 0 <= x2 < x ==> is_glyph(#[trigger] line@[x2]),
            decreases line@.len() - x,
        {
            let c = line[x];
            if !(c == ' ' || c == '1' || c == '2' || c == 'B' || c == '#' || c == '~') {
                proof {
                    assert(!is_glyph(ls[y as int][x as int]));
                }
                return false;
            }
            x += 1;
        }
        y += 1;
    }
    true
}

/// The decimal digit `d`.
fn digit_char(d: u8) -> (r: char)
    requires
        d < 10,
    ensures
        r == digit(d as int),
{
    (48u8 + d) as char
}

/// Appends the decimal text of `n`.
fn push_number(out: &mut Vec<char>, n: i8)
    ensures
        final(out)@ == old(out)@ + number_text(n as int),
{
    proof {
        reveal_with_fuel(digits, 3);
    }
    let m: u8 = if n < 0 {
        out.push('-');
        (-(n as i16)) as u8
    } else {
        n as u8
    };
    let ghost start = out@;
    if m >= 100 {
        out.push(digit_char(m / 100));
        out.push(digit_char((m / 10) % 10));
        out.push(digit_char(m % 10));
        proof {
            assert(digits(m as nat) == digits((m / 10) as nat) + seq![digit((m % 10) as int)]);
            assert(digits((m / 10) as nat) == digits((m / 100) as nat) + seq![
                digit(((m / 10) % 10) as int),
            ]);
        }
    } else if m >= 10 {
        out.push(digit_char(m / 10));
        out.push(digit_char(m % 10));
    } else {
        out.push(digit_char(m));
    }
    proof {
        assert(out@ =~= start + digits(m as nat));
        assert(out@ =~= old(out)@ + number_text(n as int));
    }
}

/// Appends how cell `(x, y)` of `world` is drawn.
fn push_cell(out: &mut Vec<char>, world: &World, x: i32, y: i32)
    ensures
        final(out)@ == old(out)@ + cell_text(world.entity_list(), x as int, y as int),
{
    match world.on_coord(Coordinate::new(x, y)) {
        Some(entity) => match entity.entity_type {
            EntityType::Player(n) => push_number(out, n),
            EntityType::Enemy(c) => out.push(c),
            EntityType::Obstacle(c) => out.push(c),
            EntityType::Hole(c) => out.push(c),
        },
        None => out.push(' '),
    }
}

/// The text of `world`: one line per row from 0 to its upper edge, one cell
/// per column from 0 to its upper edge.
pub fn print(world: &World) -> (r: String)
    ensures
        r@ == printed(*world),
{
    let (_, right_edge) = world.bounds();
    let width: i64 = right_edge.x as i64 + 1;
    let height: i64 = right_edge.y as i64 + 1;
    let ghost s = world.entity_list();
    let ghost w: int = if width < 0 {
        0
    } else {
        width as int
    };
    let ghost h: int = if height < 0 {
        0
    } else {
        height as int
    };
    let ghost rows = Seq::new(h as nat, |y: int| row_text(s, y, w));
    let mut out: Vec<char> = Vec::new();
    let mut y: i64 = 0;
    while y < height
        invariant
            0 <= y <= h,
            h == (if height < 0 {
                0
            } else {
                height as int
            }),
            w == (if width < 0 {
                0
            } else {
                width as int
            }),
            width <= i32::MAX + 1,
            height <= i32::MAX + 1,
            s == world.entity_list(),
            rows == Seq::new(h as nat, |y: int| row_text(s, y, w)),
            out@ == joined(rows.subrange(0, y as int)),
        decreases h - y,
    {
        let ghost done = out@;
        if y > 0 {
            out.push('\n');
        }
        let mut x: i64 = 0;
        while x < width
            invariant
                0 <= x <= w,
                0 <= y < h,
                y < height,
                w == (if width < 0 {
                    0
                } else {
                    width as int
                }),
                width <= i32::MAX + 1,
                height <= i32::MAX + 1,
                s == world.entity_list(),
                out@ == done + (if y > 0 {
                    seq!['\n']
                } else {
                    Seq::<char>::empty()
                }) + row_text(s, y as int, x as int),
            decreases w - x,
        {
            let ghost prefix = out@;
            push_cell(&mut out, world, x as i32, y as i32);
            proof {
                assert(row_text(s, y as int, x + 1) == row_text(s, y as int, x as int) + cell_text(
                    s,
                    x as int,
                    y as int,
                ));
                assert(out@ =~= done + (if y > 0 {
                    seq!['\n']
                } else {
                    Seq::<char>::empty()
                }) + row_text(s, y as int, x + 1));
            }
            x += 1;
        }
        proof {
            let next = rows.subrange(0, y + 1);
            assert(next.drop_last() == rows.subrange(0, y as int));
            assert(next.last() == row_text(s, y as int, w));
            if y == 0 {
                assert(out@ =~= joined(next));
            } else {
                assert(out@ =~= joined(next));
            }
        }
        y += 1;
    }
    proof {
        assert(rows.subrange(0, h) == rows);
    }
    string_of(&out)
}

} // verus!
