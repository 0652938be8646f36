//! The text of a command on the wire can be read back: it determines what
//! is to be run, to be queried and to be set.

use vstd::prelude::*;

use crate::json::{escaped, escaped_char, hex_digit, is_plain, json_string_of};
use crate::packets::outgoing::{
    command_text, entry_text, list_items, list_text, map_items, map_text, wire_text,
    OutgoingPacketView,
};
use crate::server_command::ServerCommandView;

verus! {

/// Two texts that are equal behind a common beginning are equal.
pub proof fn lemma_cancel_front(front: Seq<char>, a: Seq<char>, b: Seq<char>)
    requires
        front + a == front + b,
    ensures
        a == b,
{
    assert((front + a).skip(front.len() as int) =~= a);
    assert((front + b).skip(front.len() as int) =~= b);
}

/// Escaping goes character by character.
pub proof fn lemma_escaped_concat(a: Seq<char>, b: Seq<char>)
    ensures
        escaped(a + b) == escaped(a) + escaped(b),
    decreases b.len(),
{
    if b.len() == 0 {
        assert(a + b =~= a);
        assert(escaped(a) + escaped(b) =~= escaped(a));
    } else {
        lemma_escaped_concat(a, b.drop_last());
        assert((a + b).drop_last() =~= a + b.drop_last());
        assert((a + b).last() == b.last());
        assert(escaped(a + b) =~= escaped(a) + escaped(b));
    }
}

/// Escaping a text is escaping its first character and then the rest.
pub proof fn lemma_escaped_front(text: Seq<char>)
    requires
        text.len() > 0,
    ensures
        escaped(text) == escaped_char(text[0]) + escaped(text.skip(1)),
{
    let first = seq![text[0]];
    assert(text =~= first + text.skip(1));
    lemma_escaped_concat(first, text.skip(1));
    assert(first.drop_last() =~= Seq::<char>::empty());
    assert(first.last() == text[0]);
    assert(escaped(first.drop_last()) =~= Seq::<char>::empty());
    assert(escaped(first) =~= escaped_char(text[0]));
}

/// The hexadecimal digits differ from one another.
pub proof fn lemma_hex_digits_differ(m: int, n: int)
    requires
        0 <= m < 16,
        0 <= n < 16,
        hex_digit(m) == hex_digit(n),
    ensures
        m == n,
{
    reveal_strlit("0123456789abcdef");
}

/// The shape of an escape: a plain character stands for itself; every other
/// is written behind a backslash, with a letter that tells which it is, or
/// with `u00` and its two hexadecimal digits.
pub proof fn lemma_escape_shape(c: char)
    ensures
        escaped_char(c).len() >= 1,
        escaped_char(c)[0] != '"',
        is_plain(c) ==> escaped_char(c) == seq![c] && escaped_char(c)[0] != '\\',
        !is_plain(c) ==> {
            &&& escaped_char(c).len() >= 2
            &&& escaped_char(c)[0] == '\\'
            &&& (escaped_char(c)[1] == '"' <==> c == '"')
            &&& (escaped_char(c)[1] == '\\' <==> c == '\\')
            &&& (escaped_char(c)[1] == 'b' <==> c == '\u{8}')
            &&& (escaped_char(c)[1] == 't' <==> c == '\t')
            &&& (escaped_char(c)[1] == 'n' <==> c == '\n')
            &&& (escaped_char(c)[1] == 'f' <==> c == '\u{c}')
            &&& (escaped_char(c)[1] == 'r' <==> c == '\r')
            &&& (escaped_char(c)[1] != 'u' ==> escaped_char(c).len() == 2)
            &&& (escaped_char(c)[1] == 'u' ==> {
                &&& escaped_char(c).len() == 6
                &&& (c as u32) < 0x20
                &&& escaped_char(c)[4] == hex_digit((c as u32) as int / 16)
                &&& escaped_char(c)[5] == hex_digit((c as u32) as int % 16)
            })
        },
{
}

/// What a character is escaped to tells the character: of two texts that
/// begin with the escapes of two characters and are equal, the characters
/// are equal, and so is what follows the escapes.
#[verifier::rlimit(60)]
pub proof fn lemma_escape_tells(c: char, d: char, x: Seq<char>, y: Seq<char>)
    requires
        escaped_char(c) + x == escaped_char(d) + y,
    ensures
        c == d,
        x == y,
{
    let left = escaped_char(c) + x;
    let right = escaped_char(d) + y;
    lemma_escape_shape(c);
    lemma_escape_shape(d);
    assert(left[0] == escaped_char(c)[0]);
    assert(right[0] == escaped_char(d)[0]);
    if is_plain(c) {
        assert(is_plain(d));
        assert(seq![c][0] == seq![d][0]);
    } else {
        assert(!is_plain(d));
        assert(left[1] == escaped_char(c)[1]);
        assert(right[1] == escaped_char(d)[1]);
        if escaped_char(c)[1] == 'u' {
            assert(left[4] == escaped_char(c)[4] && left[5] == escaped_char(c)[5]);
            assert(right[4] == escaped_char(d)[4] && right[5] == escaped_char(d)[5]);
            let m = (c as u32) as int;
            let n = (d as u32) as int;
            lemma_hex_digits_differ(m / 16, n / 16);
            lemma_hex_digits_differ(m % 16, n % 16);
            assert(m == n);
            assert(c as u32 == d as u32);
        }
    }
    assert(c == d);
    lemma_cancel_front(escaped_char(c), x, y);
}

/// An escaped text ends at the first quote: of two texts that begin with an
/// escaped text and a quote and are equal, the escaped texts are equal, and
/// so is what follows the quotes.
#[verifier::rlimit(60)]
pub proof fn lemma_escaped_tells(a: Seq<char>, b: Seq<char>, x: Seq<char>, y: Seq<char>)
    requires
        escaped(a) + seq!['"'] + x == escaped(b) + seq!['"'] + y,
    ensures
        a == b,
        x == y,
    decreases a.len(),
{
    let left = escaped(a) + seq!['"'] + x;
    let right = escaped(b) + seq!['"'] + y;
    if a.len() == 0 {
        assert(left[0] == '"');
        if b.len() > 0 {
            lemma_escaped_front(b);
            lemma_escape_shape(b[0]);
            assert(right[0] == escaped_char(b[0])[0]);
        }
        assert(a =~= b);
        assert(left =~= seq!['"'] + x);
        assert(right =~= seq!['"'] + y);
        lemma_cancel_front(seq!['"'], x, y);
    } else {
        lemma_escaped_front(a);
        lemma_escape_shape(a[0]);
        if b.len() == 0 {
            assert(right[0] == '"');
            assert(left[0] == escaped_char(a[0])[0]);
        }
        lemma_escaped_front(b);
        let after_a = escaped(a.skip(1)) + seq!['"'] + x;
        let after_b = escaped(b.skip(1)) + seq!['"'] + y;
        assert(left =~= escaped_char(a[0]) + after_a);
        assert(right =~= escaped_char(b[0]) + after_b);
        lemma_escape_tells(a[0], b[0], after_a, after_b);
        lemma_escaped_tells(a.skip(1), b.skip(1), x, y);
        assert(a =~= seq![a[0]] + a.skip(1));
        assert(b =~= seq![b[0]] + b.skip(1));
    }
}

/// A string literal tells its text: of two texts that begin with a string
/// literal and are equal, the literals are of the same text, and what
/// follows them is equal.
pub proof fn lemma_literal_tells(a: Seq<char>, b: Seq<char>, x: Seq<char>, y: Seq<char>)
    requires
        json_string_of(a) + x == json_string_of(b) + y,
    ensures
        a == b,
        x == y,
{
    let rest_a = escaped(a) + seq!['"'] + x;
    let rest_b = escaped(b) + seq!['"'] + y;
    assert(json_string_of(a) + x =~= seq!['"'] + rest_a);
    assert(json_string_of(b) + y =~= seq!['"'] + rest_b);
    lemma_cancel_front(seq!['"'], rest_a, rest_b);
    lemma_escaped_tells(a, b, x, y);
}

/// A string literal begins with a quote.
pub proof fn lemma_literal_begins(a: Seq<char>)
    ensures
        json_string_of(a).len() >= 2,
        json_string_of(a)[0] == '"',
{
}

/// What follows the first literal of a list: nothing, or a comma and the
/// rest of the list.
pub open spec fn list_rest(items: Seq<Seq<char>>) -> Seq<char> {
    if items.len() <= 1 {
        Seq::empty()
    } else {
        ","@ + list_items(items.skip(1))
    }
}

/// A list is written as its first literal and what follows it.
#[verifier::rlimit(60)]
pub proof fn lemma_list_front(items: Seq<Seq<char>>)
    requires
        items.len() > 0,
    ensures
        list_items(items) == json_string_of(items[0]) + list_rest(items),
    decreases items.len(),
{
    if items.len() == 1 {
        assert(list_items(items) =~= json_string_of(items[0]) + list_rest(items));
    } else {
        let earlier = items.drop_last();
        let later = items.skip(1);
        lemma_list_front(earlier);
        assert(later.last() == items.last());
        if items.len() == 2 {
            assert(later[0] == items.last());
            assert(list_items(later) == json_string_of(items.last()));
            assert(list_rest(earlier) =~= Seq::<char>::empty());
        } else {
            assert(later.drop_last() =~= earlier.skip(1));
            assert(list_items(later) == list_items(earlier.skip(1)) + ","@ + json_string_of(
                items.last(),
            ));
        }
        assert(list_items(items) =~= json_string_of(items[0]) + list_rest(items));
    }
}

/// A list that is not empty begins with a quote, whatever follows it.
proof fn lemma_list_begins(xs: Seq<Seq<char>>, close: Seq<char>, x: Seq<char>)
    requires
        xs.len() > 0,
    ensures
        (list_items(xs) + close + x)[0] == '"',
{
    lemma_list_front(xs);
    lemma_literal_begins(xs[0]);
    assert((list_items(xs) + close + x)[0] == json_string_of(xs[0])[0]);
}

/// Two lists that are not empty and are written alike, up to and beyond
/// their closing brackets, begin with the same item, and what follows the
/// first item is written alike.
#[verifier::rlimit(60)]
proof fn lemma_list_step(xs: Seq<Seq<char>>, ys: Seq<Seq<char>>, x: Seq<char>, y: Seq<char>)
    requires
        xs.len() > 0,
        ys.len() > 0,
        list_items(xs) + "]"@ + x == list_items(ys) + "]"@ + y,
    ensures
        xs[0] == ys[0],
        list_rest(xs) + "]"@ + x == list_rest(ys) + "]"@ + y,
{
    lemma_list_front(xs);
    lemma_list_front(ys);
    let after_x = list_rest(xs) + "]"@ + x;
    let after_y = list_rest(ys) + "]"@ + y;
    assert(list_items(xs) + "]"@ + x =~= json_string_of(xs[0]) + after_x);
    assert(list_items(ys) + "]"@ + y =~= json_string_of(ys[0]) + after_y);
    lemma_literal_tells(xs[0], ys[0], after_x, after_y);
}

/// What follows the first item of a list begins with a comma if more items
/// follow, and with the closing bracket if none does.
proof fn lemma_list_rest_begins(xs: Seq<Seq<char>>, x: Seq<char>)
    requires
        xs.len() > 0,
    ensures
        xs.len() == 1 ==> list_rest(xs) + "]"@ + x == "]"@ + x && (list_rest(xs) + "]"@ + x)[0]
            == ']',
        xs.len() > 1 ==> list_rest(xs) + "]"@ + x == ","@ + (list_items(xs.skip(1)) + "]"@ + x)
            && (list_rest(xs) + "]"@ + x)[0] == ',',
{
    reveal_strlit("]");
    reveal_strlit(",");
    if xs.len() == 1 {
        assert(list_rest(xs) + "]"@ + x =~= "]"@ + x);
    } else {
        assert(list_rest(xs) + "]"@ + x =~= ","@ + (list_items(xs.skip(1)) + "]"@ + x));
    }
}

/// A list tells its items: of two texts that begin with the items of a list
/// and a closing bracket and are equal, the lists are equal, and so is what
/// follows the brackets.
#[verifier::rlimit(60)]
pub proof fn lemma_list_tells(
    xs: Seq<Seq<char>>,
    ys: Seq<Seq<char>>,
    x: Seq<char>,
    y: Seq<char>,
)
    requires
        list_items(xs) + "]"@ + x == list_items(ys) + "]"@ + y,
    ensures
        xs == ys,
        x == y,
    decreases xs.len(),
{
    if xs.len() == 0 || ys.len() == 0 {
        reveal_strlit("]");
        if xs.len() > 0 {
            lemma_list_begins(xs, "]"@, x);
            assert((list_items(ys) + "]"@ + y)[0] == ']');
        }
        if ys.len() > 0 {
            lemma_list_begins(ys, "]"@, y);
            assert((list_items(xs) + "]"@ + x)[0] == ']');
        }
        assert(xs =~= ys);
        assert(list_items(xs) + "]"@ + x =~= "]"@ + x);
        assert(list_items(ys) + "]"@ + y =~= "]"@ + y);
        lemma_cancel_front("]"@, x, y);
    } else {
        lemma_list_step(xs, ys, x, y);
        lemma_list_rest_begins(xs, x);
        lemma_list_rest_begins(ys, y);
        if xs.len() == 1 {
            assert(ys.len() == 1);
            lemma_cancel_front("]"@, x, y);
            assert(xs =~= ys);
        } else {
            assert(ys.len() > 1);
            lemma_cancel_front(
                ","@,
                list_items(xs.skip(1)) + "]"@ + x,
                list_items(ys.skip(1)) + "]"@ + y,
            );
            lemma_list_tells(xs.skip(1), ys.skip(1), x, y);
            assert(xs =~= seq![xs[0]] + xs.skip(1));
            assert(ys =~= seq![ys[0]] + ys.skip(1));
        }
    }
}

/// What follows the first entry of a mapping: nothing, or a comma and the
/// rest of the entries.
pub open spec fn map_rest(entries: Seq<(Seq<char>, Seq<char>)>) -> Seq<char> {
    if entries.len() <= 1 {
        Seq::empty()
    } else {
        ","@ + map_items(entries.skip(1))
    }
}

/// A mapping is written as its first entry and what follows it.
#[verifier::rlimit(60)]
pub proof fn lemma_map_front(entries: Seq<(Seq<char>, Seq<char>)>)
    requires
        entries.len() > 0,
    ensures
        map_items(entries) == entry_text(entries[0]) + map_rest(entries),
    decreases entries.len(),
{
    if entries.len() == 1 {
        assert(map_items(entries) =~= entry_text(entries[0]) + map_rest(entries));
    } else {
        let earlier = entries.drop_last();
        let later = entries.skip(1);
        lemma_map_front(earlier);
        assert(later.last() == entries.last());
        if entries.len() == 2 {
            assert(later[0] == entries.last());
            assert(map_items(later) == entry_text(entries.last()));
            assert(map_rest(earlier) =~= Seq::<char>::empty());
        } else {
            assert(later.drop_last() =~= earlier.skip(1));
            assert(map_items(later) == map_items(earlier.skip(1)) + ","@ + entry_text(
                entries.last(),
            ));
        }
        assert(map_items(entries) =~= entry_text(entries[0]) + map_rest(entries));
    }
}

/// An entry tells its key and its value.
#[verifier::rlimit(60)]
pub proof fn lemma_entry_tells(
    a: (Seq<char>, Seq<char>),
    b: (Seq<char>, Seq<char>),
    x: Seq<char>,
    y: Seq<char>,
)
    requires
        entry_text(a) + x == entry_text(b) + y,
    ensures
        a == b,
        x == y,
{
    let value_a = json_string_of(a.1) + x;
    let value_b = json_string_of(b.1) + y;
    let after_a = ":"@ + value_a;
    let after_b = ":"@ + value_b;
    assert(entry_text(a) + x =~= json_string_of(a.0) + after_a);
    assert(entry_text(b) + y =~= json_string_of(b.0) + after_b);
    lemma_literal_tells(a.0, b.0, after_a, after_b);
    lemma_cancel_front(":"@, value_a, value_b);
    lemma_literal_tells(a.1, b.1, x, y);
}

/// A mapping that is not empty begins with a quote, whatever follows it.
proof fn lemma_map_begins(xs: Seq<(Seq<char>, Seq<char>)>, close: Seq<char>, x: Seq<char>)
    requires
        xs.len() > 0,
    ensures
        (map_items(xs) + close + x)[0] == '"',
{
    lemma_map_front(xs);
    lemma_literal_begins(xs[0].0);
    assert((map_items(xs) + close + x)[0] == json_string_of(xs[0].0)[0]);
}

/// Two mappings that are not empty and are written alike, up to and beyond
/// their closing braces, begin with the same entry, and what follows the
/// first entry is written alike.
#[verifier::rlimit(60)]
proof fn lemma_map_step(
    xs: Seq<(Seq<char>, Seq<char>)>,
    ys: Seq<(Seq<char>, Seq<char>)>,
    x: Seq<char>,
    y: Seq<char>,
)
    requires
        xs.len() > 0,
        ys.len() > 0,
        map_items(xs) + "}"@ + x == map_items(ys) + "}"@ + y,
    ensures
        xs[0] == ys[0],
        map_rest(xs) + "}"@ + x == map_rest(ys) + "}"@ + y,
{
    lemma_map_front(xs);
    lemma_map_front(ys);
    let after_x = map_rest(xs) + "}"@ + x;
    let after_y = map_rest(ys) + "}"@ + y;
    assert(map_items(xs) + "}"@ + x =~= entry_text(xs[0]) + after_x);
    assert(map_items(ys) + "}"@ + y =~= entry_text(ys[0]) + after_y);
    lemma_entry_tells(xs[0], ys[0], after_x, after_y);
}

/// What follows the first entry of a mapping begins with a comma if more
/// entries follow, and with the closing brace if none does.
proof fn lemma_map_rest_begins(xs: Seq<(Seq<char>, Seq<char>)>, x: Seq<char>)
    requires
        xs.len() > 0,
    ensures
        xs.len() == 1 ==> map_rest(xs) + "}"@ + x == "}"@ + x && (map_rest(xs) + "}"@ + x)[0]
            == '}',
        xs.len() > 1 ==> map_rest(xs) + "}"@ + x == ","@ + (map_items(xs.skip(1)) + "}"@ + x)
            && (map_rest(xs) + "}"@ + x)[0] == ',',
{
    reveal_strlit("}");
    reveal_strlit(",");
    if xs.len() == 1 {
        assert(map_rest(xs) + "}"@ + x =~= "}"@ + x);
    } else {
        assert(map_rest(xs) + "}"@ + x =~= ","@ + (map_items(xs.skip(1)) + "}"@ + x));
    }
}

/// A mapping tells its entries: of two texts that begin with the entries of
/// a mapping and a closing brace and are equal, the mappings are equal, and
/// so is what follows the braces.
#[verifier::rlimit(60)]
pub proof fn lemma_map_tells(
    xs: Seq<(Seq<char>, Seq<char>)>,
    ys: Seq<(Seq<char>, Seq<char>)>,
    x: Seq<char>,
    y: Seq<char>,
)
    requires
        map_items(xs) + "}"@ + x == map_items(ys) + "}"@ + y,
    ensures
        xs == ys,
        x == y,
    decreases xs.len(),
{
    if xs.len() == 0 || ys.len() == 0 {
        reveal_strlit("}");
        if xs.len() > 0 {
            lemma_map_begins(xs, "}"@, x);
            assert((map_items(ys) + "}"@ + y)[0] == '}');
        }
        if ys.len() > 0 {
            lemma_map_begins(ys, "}"@, y);
            assert((map_items(xs) + "}"@ + x)[0] == '}');
        }
        assert(xs =~= ys);
        assert(map_items(xs) + "}"@ + x =~= "}"@ + x);
        assert(map_items(ys) + "}"@ + y =~= "}"@ + y);
        lemma_cancel_front("}"@, x, y);
    } else {
        lemma_map_step(xs, ys, x, y);
        lemma_map_rest_begins(xs, x);
        lemma_map_rest_begins(ys, y);
        if xs.len() == 1 {
            assert(ys.len() == 1);
            lemma_cancel_front("}"@, x, y);
            assert(xs =~= ys);
        } else {
            assert(ys.len() > 1);
            lemma_cancel_front(
                ","@,
                map_items(xs.skip(1)) + "}"@ + x,
                map_items(ys.skip(1)) + "}"@ + y,
            );
            lemma_map_tells(xs.skip(1), ys.skip(1), x, y);
            assert(xs =~= seq![xs[0]] + xs.skip(1));
            assert(ys =~= seq![ys[0]] + ys.skip(1));
        }
    }
}

/// Texts that are put together in one order can be grouped at will: the
/// parts of a command as they are written, and the same parts grouped from
/// the right.
#[verifier::rlimit(60)]
proof fn lemma_regroup(
    id: Seq<char>,
    run_key: Seq<char>,
    query_key: Seq<char>,
    set_key: Seq<char>,
    run: Seq<char>,
    query: Seq<char>,
    set: Seq<char>,
    open_list: Seq<char>,
    close_list: Seq<char>,
    open_map: Seq<char>,
    close_map: Seq<char>,
)
    ensures
        id + (run_key + (open_list + run + close_list) + query_key + (open_list + query
            + close_list) + set_key + (open_map + set + close_map) + close_map) + close_map == (id
            + run_key + open_list) + (run + close_list + ((query_key + open_list) + (query
            + close_list + ((set_key + open_map) + (set + close_map + (close_map + close_map)))))),
{
    let tail = set + close_map + (close_map + close_map);
    let low = (set_key + open_map) + tail;
    assert(low =~= set_key + (open_map + set + close_map) + close_map + close_map);
    let mid = (query_key + open_list) + (query + close_list + low);
    assert(mid =~= query_key + (open_list + query + close_list) + low);
    let top = (run_key + open_list) + (run + close_list + mid);
    assert(top =~= run_key + (open_list + run + close_list) + mid);
    assert(top =~= (run_key + (open_list + run + close_list) + query_key + (open_list + query
        + close_list) + set_key + (open_map + set + close_map) + close_map) + close_map);
    assert(id + top =~= (id + run_key + open_list) + (run + close_list + mid));
}

/// What is left of the text of a command behind its beginning: the items to
/// run and all that follows them.
spec fn behind_the_head(command: ServerCommandView) -> Seq<char> {
    let set_part = map_items(command.set) + "}"@ + ("}"@ + "}"@);
    let query_part = list_items(command.query) + "]"@ + ((",\"set\":"@ + "{"@) + set_part);
    list_items(command.run) + "]"@ + ((",\"query\":"@ + "["@) + query_part)
}

/// The text of a command, grouped from the right: each list and the mapping
/// stands at the beginning of what is left of the text.
proof fn lemma_command_grouped(command: ServerCommandView)
    ensures
        wire_text(OutgoingPacketView::ServerRun(command)) == ("{\"id\":0,\"exec\":"@
            + "{\"run\":"@ + "["@) + behind_the_head(command),
{
    lemma_regroup(
        "{\"id\":0,\"exec\":"@,
        "{\"run\":"@,
        ",\"query\":"@,
        ",\"set\":"@,
        list_items(command.run),
        list_items(command.query),
        map_items(command.set),
        "["@,
        "]"@,
        "{"@,
        "}"@,
    );
}

/// The text of a command tells what is to be run, to be queried and to be
/// set: two commands that are written as the same text agree on all three.
pub proof fn lemma_command_tells(a: ServerCommandView, b: ServerCommandView)
    requires
        wire_text(OutgoingPacketView::ServerRun(a)) == wire_text(OutgoingPacketView::ServerRun(b)),
    ensures
        a.run == b.run,
        a.query == b.query,
        a.set == b.set,
{
    let head = "{\"id\":0,\"exec\":"@ + "{\"run\":"@ + "["@;
    let mid = ",\"query\":"@ + "["@;
    let low = ",\"set\":"@ + "{"@;
    let end = "}"@ + "}"@;
    let set_a = map_items(a.set) + "}"@ + end;
    let set_b = map_items(b.set) + "}"@ + end;
    let query_a = list_items(a.query) + "]"@ + (low + set_a);
    let query_b = list_items(b.query) + "]"@ + (low + set_b);
    let run_a = list_items(a.run) + "]"@ + (mid + query_a);
    let run_b = list_items(b.run) + "]"@ + (mid + query_b);
    lemma_command_grouped(a);
    lemma_command_grouped(b);
    lemma_cancel_front(head, run_a, run_b);
    lemma_list_tells(a.run, b.run, mid + query_a, mid + query_b);
    lemma_cancel_front(mid, query_a, query_b);
    lemma_list_tells(a.query, b.query, low + set_a, low + set_b);
    lemma_cancel_front(low, set_a, set_b);
    lemma_map_tells(a.set, b.set, end, end);
}

/// Whether `text` is the text of a command on the wire.
pub open spec fn is_command_text(text: Seq<char>) -> bool {
    exists|command: ServerCommandView| wire_text(OutgoingPacketView::ServerRun(command)) == text
}

/// What a frame that carries a command is read as: the command whose text it
/// is, as far as the text tells it, which is without the selector.
pub open spec fn read_command(text: Seq<char>) -> ServerCommandView {
    let command = choose|command: ServerCommandView|
        wire_text(OutgoingPacketView::ServerRun(command)) == text;
    ServerCommandView { on: Seq::empty(), ..command }
}

/// The round trip: a command that is written and read back is the command
/// that was written, with what it runs, queries and sets unchanged and in
/// order, and without its selector.
pub proof fn lemma_round_trip(command: ServerCommandView)
    ensures
        is_command_text(wire_text(OutgoingPacketView::ServerRun(command))),
        read_command(wire_text(OutgoingPacketView::ServerRun(command))) == (ServerCommandView {
            on: Seq::empty(),
            ..command
        }),
{
    let text = wire_text(OutgoingPacketView::ServerRun(command));
    let found = choose|found: ServerCommandView|
        wire_text(OutgoingPacketView::ServerRun(found)) == text;
    lemma_command_tells(found, command);
}

} // verus!
