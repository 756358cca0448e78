//! Reading back what the printer wrote: names, strings and, built from
//! them, the statements of the grammar.

use vstd::prelude::*;
use crate::javascript::display::{escaped_char, escaped_text, string_text};
use crate::javascript::error::ParseError;
use crate::javascript::grammar::{
    char_at, digits_end, digits_fold, escape_sequence, hex_end, identifier, identifier_char,
    identifier_rest, is_line_terminator, is_reserved_word, is_whitespace, skip_tokens,
    string_characters, string_literal,
};
use crate::javascript::ast::{
    FunctionBodyStatement, ImportBinding, Pattern, Program, Statement, VariableDeclarationKind,
};
use crate::javascript::statements::{
    binds, describes, describes_all, describes_in_body, describes_program, function_declaration,
    import_binding, import_binding_list, import_statement, names,
    parameter_names, parameters, program, starts_statement, statement, statement_end, statements,
    var_declaration, Imported, Item,
};
use crate::javascript::syntax::{
    function_body_text, import_bindings_text, kind_text, patterns_text, program_text,
    statement_text, statements_text,
};
use crate::javascript::unicode::{id_continue, id_start};
use crate::text::has_text;

verus! {

// ---------------------------------------------------------------------------
// Texts within texts
// ---------------------------------------------------------------------------

/// A text that stands at a place gives the characters of that place.
pub proof fn lemma_has_text_char(s: Seq<char>, pos: int, t: Seq<char>, i: int)
    requires
        has_text(s, pos, t),
        0 <= i < t.len(),
    ensures
        pos + i < s.len(),
        s[pos + i] == t[i],
{
    assert(s.subrange(pos, pos + t.len())[i] == s[pos + i]);
}

/// Two texts stand one after the other where their joining stands, and the
/// other way round.
pub proof fn lemma_has_text_split(s: Seq<char>, pos: int, a: Seq<char>, b: Seq<char>)
    requires
        0 <= pos,
    ensures
        has_text(s, pos, a + b) <==> has_text(s, pos, a) && has_text(s, pos + a.len(), b),
{
    if has_text(s, pos, a + b) {
        assert(s.subrange(pos, pos + a.len()) =~= a) by {
            assert forall|i: int| 0 <= i < a.len() implies s.subrange(pos, pos + a.len())[i]
                == a[i] by {
                lemma_has_text_char(s, pos, a + b, i);
            }
        }
        assert(s.subrange(pos + a.len(), pos + a.len() + b.len()) =~= b) by {
            assert forall|i: int| 0 <= i < b.len() implies s.subrange(
                pos + a.len(),
                pos + a.len() + b.len(),
            )[i] == b[i] by {
                lemma_has_text_char(s, pos, a + b, a.len() + i);
            }
        }
    }
    if has_text(s, pos, a) && has_text(s, pos + a.len(), b) {
        assert(s.subrange(pos, pos + (a + b).len()) =~= a + b) by {
            assert forall|i: int| 0 <= i < (a + b).len() implies s.subrange(
                pos,
                pos + (a + b).len(),
            )[i] == (a + b)[i] by {
                if i < a.len() {
                    lemma_has_text_char(s, pos, a, i);
                } else {
                    lemma_has_text_char(s, pos + a.len(), b, i - a.len());
                }
            }
        }
    }
}

// ---------------------------------------------------------------------------
// White space
// ---------------------------------------------------------------------------

/// Whether nothing that separates tokens begins at `pos`: the text ends
/// there, or a character stands there that is no white space and opens no
/// comment.
pub open spec fn is_token_start(s: Seq<char>, pos: int) -> bool {
    pos == s.len() || (0 <= pos < s.len() && !is_whitespace(s[pos]) && s[pos] != '/')
}

/// Where nothing that separates tokens begins, nothing is skipped.
pub proof fn lemma_skip_nothing(s: Seq<char>, pos: int)
    requires
        is_token_start(s, pos),
    ensures
        skip_tokens(s, pos) == pos,
{
}

/// One space before a token is skipped.
pub proof fn lemma_skip_space(s: Seq<char>, pos: int)
    requires
        char_at(s, pos, ' '),
        is_token_start(s, pos + 1),
    ensures
        skip_tokens(s, pos) == pos + 1,
{
    lemma_skip_nothing(s, pos + 1);
}

// ---------------------------------------------------------------------------
// Names
// ---------------------------------------------------------------------------

/// Whether `n` is a name that is written as it is read: a character that
/// can begin an identifier, then characters that can continue one, and the
/// whole no reserved word.
pub open spec fn is_plain_name(n: Seq<char>) -> bool {
    &&& n.len() > 0
    &&& id_start(n[0])
    &&& !is_whitespace(n[0])
    &&& forall|i: int| 1 <= i < n.len() ==> id_continue(#[trigger] n[i])
    &&& !is_reserved_word(n)
}

/// Whether no identifier goes on at `pos`.
pub open spec fn ends_name(s: Seq<char>, pos: int) -> bool {
    pos == s.len() || (0 <= pos < s.len() && !id_continue(s[pos]) && s[pos] != '\\')
}

/// The characters of a plain name from the `k`-th on are read as the rest
/// of an identifier.
proof fn lemma_name_rest_reads(s: Seq<char>, pos: int, n: Seq<char>, k: int)
    requires
        0 <= pos,
        has_text(s, pos, n),
        is_plain_name(n),
        ends_name(s, pos + n.len()),
        1 <= k <= n.len(),
    ensures
        identifier_rest(s, pos + k) == (n.skip(k), pos + n.len()),
    decreases n.len() - k,
{
    if k < n.len() {
        lemma_has_text_char(s, pos, n, k);
        lemma_name_rest_reads(s, pos, n, k + 1);
        assert(id_continue(n[k]));
        assert(s[pos + k] != '\\');
        assert(identifier_char(s, pos + k, false) == Some((n[k], pos + k + 1)));
        assert(seq![n[k]] + n.skip(k + 1) =~= n.skip(k));
    } else {
        assert(n.skip(k) =~= Seq::<char>::empty());
        assert(identifier_char(s, pos + k, false) is None);
    }
}

/// A plain name is read as itself, where no identifier goes on after it.
pub proof fn lemma_name_reads(s: Seq<char>, pos: int, n: Seq<char>)
    requires
        0 <= pos,
        has_text(s, pos, n),
        is_plain_name(n),
        ends_name(s, pos + n.len()),
    ensures
        identifier(s, pos) == Ok::<(Seq<char>, int), ParseError>((n, pos + n.len())),
{
    lemma_has_text_char(s, pos, n, 0);
    assert(s[pos] != '\\');
    assert(identifier_char(s, pos, true) == Some((n[0], pos + 1)));
    lemma_name_rest_reads(s, pos, n, 1);
    assert(seq![n[0]] + n.skip(1) =~= n);
}

// ---------------------------------------------------------------------------
// Strings
// ---------------------------------------------------------------------------

/// The escaped form of the first characters of a text begins the escaped
/// form of more of them.
proof fn lemma_escaped_prefix(v: Seq<char>, k: int, n: int)
    requires
        0 <= k <= n <= v.len(),
    ensures
        escaped_text(v, k).len() <= escaped_text(v, n).len(),
        escaped_text(v, n).subrange(0, escaped_text(v, k).len() as int) == escaped_text(v, k),
    decreases n - k,
{
    if k < n {
        lemma_escaped_prefix(v, k, n - 1);
        let shorter = escaped_text(v, n - 1);
        let longer = escaped_text(v, n);
        let part = escaped_text(v, k);
        assert(longer.subrange(0, part.len() as int) =~= shorter.subrange(0, part.len() as int));
    } else {
        assert(escaped_text(v, n).subrange(0, escaped_text(v, n).len() as int) =~= escaped_text(
            v,
            n,
        ));
    }
}

/// The escaped form of the `k`-th character stands in the escaped form of
/// the text after the escaped forms of the characters before it.
proof fn lemma_escaped_char_stands(s: Seq<char>, pos: int, v: Seq<char>, k: int)
    requires
        0 <= pos,
        has_text(s, pos, string_text(v)),
        0 <= k < v.len(),
    ensures
        has_text(s, pos + 1 + escaped_text(v, k).len(), escaped_char(v[k])),
{
    let whole = escaped_text(v, v.len() as int);
    let before = escaped_text(v, k);
    let upto = escaped_text(v, k + 1);
    lemma_escaped_prefix(v, k + 1, v.len() as int);
    assert(upto == before + escaped_char(v[k]));
    let one = escaped_char(v[k]);
    assert(s.subrange(pos + 1 + before.len(), pos + 1 + before.len() + one.len()) =~= one) by {
        assert forall|i: int| 0 <= i < one.len() implies s[pos + 1 + before.len() + i]
            == one[i] by {
            lemma_has_text_char(s, pos, string_text(v), 1 + before.len() + i);
            assert(whole.subrange(0, upto.len() as int)[before.len() + i] == whole[before.len()
                + i]);
        }
    }
}

/// Four hexadecimal digits after `\u` are read as the number they write.
proof fn lemma_separator_escape_reads(s: Seq<char>, q: int, last: char)
    requires
        0 <= q,
        has_text(s, q, seq!['\\', 'u', '2', '0', '2', last]),
        last == '8' || last == '9',
    ensures
        escape_sequence(s, q) == Ok::<(char, int), ParseError>(
            (if last == '8' { '\u{2028}' } else { '\u{2029}' }, q + 6),
        ),
{
    let t = seq!['\\', 'u', '2', '0', '2', last];
    lemma_has_text_char(s, q, t, 0);
    lemma_has_text_char(s, q, t, 1);
    lemma_has_text_char(s, q, t, 2);
    lemma_has_text_char(s, q, t, 3);
    lemma_has_text_char(s, q, t, 4);
    lemma_has_text_char(s, q, t, 5);
    reveal_with_fuel(digits_end, 5);
    reveal_with_fuel(digits_fold, 5);
    crate::javascript::theorems::lemma_digits_end_bounds(s, q + 6, 16);
    assert(digits_end(s, q + 2, 16) == digits_end(s, q + 6, 16));
    assert(hex_end(s, q + 2, 4) == q + 6);
    assert(0 * 16 == 0) by (nonlinear_arith);
    assert(0x2028 as char == '\u{2028}');
    assert(0x2029 as char == '\u{2029}');
}

/// The escaped form of a character is read as the character.
proof fn lemma_escaped_char_reads(s: Seq<char>, q: int, c: char)
    requires
        0 <= q,
        has_text(s, q, escaped_char(c)),
    ensures
        q < s.len(),
        s[q] != '\'',
        !is_line_terminator(s[q]),
        s[q] == '\\' ==> escape_sequence(s, q) == Ok::<(char, int), ParseError>(
            (c, q + escaped_char(c).len()),
        ),
        s[q] != '\\' ==> s[q] == c && escaped_char(c).len() == 1,
{
    lemma_has_text_char(s, q, escaped_char(c), 0);
    if c == '\'' || c == '\\' || c == '\n' || c == '\r' {
        lemma_has_text_char(s, q, escaped_char(c), 1);
    } else if c == '\u{2028}' {
        lemma_separator_escape_reads(s, q, '8');
    } else if c == '\u{2029}' {
        lemma_separator_escape_reads(s, q, '9');
    }
}

/// The characters of a printed string from the `k`-th on are read as they
/// were.
proof fn lemma_string_characters_read(s: Seq<char>, pos: int, v: Seq<char>, k: int)
    requires
        0 <= pos,
        has_text(s, pos, string_text(v)),
        0 <= k <= v.len(),
    ensures
        string_characters(s, pos + 1 + escaped_text(v, k).len(), '\'') == Ok::<
            (Seq<char>, int),
            ParseError,
        >((v.skip(k), pos + string_text(v).len())),
    decreases v.len() - k,
{
    let q = pos + 1 + escaped_text(v, k).len();
    if k < v.len() {
        lemma_escaped_char_stands(s, pos, v, k);
        lemma_escaped_char_reads(s, q, v[k]);
        lemma_string_characters_read(s, pos, v, k + 1);
        assert(escaped_text(v, k + 1) == escaped_text(v, k) + escaped_char(v[k]));
        assert(seq![v[k]] + v.skip(k + 1) =~= v.skip(k));
        lemma_has_text_char(s, pos, string_text(v), string_text(v).len() - 1);
    } else {
        assert(v.skip(k) =~= Seq::<char>::empty());
        lemma_has_text_char(s, pos, string_text(v), 1 + escaped_text(v, k).len() as int);
    }
}

/// A printed string is read as the string that was printed.
pub proof fn lemma_string_reads(s: Seq<char>, pos: int, v: Seq<char>)
    requires
        0 <= pos,
        has_text(s, pos, string_text(v)),
    ensures
        string_literal(s, pos) == Ok::<(Seq<char>, int), ParseError>(
            (v, pos + string_text(v).len()),
        ),
{
    lemma_has_text_char(s, pos, string_text(v), 0);
    lemma_string_characters_read(s, pos, v, 0);
    assert(v.skip(0) =~= v);
    assert(escaped_text(v, 0).len() == 0);
}

// ---------------------------------------------------------------------------
// Lists
// ---------------------------------------------------------------------------

/// The first `n` of `parts`, joined by `sep`.
pub open spec fn joined(parts: Seq<Seq<char>>, sep: Seq<char>, n: int) -> Seq<char>
    decreases n,
{
    if n <= 0 || n > parts.len() {
        Seq::empty()
    } else if n == 1 {
        parts[0]
    } else {
        joined(parts, sep, n - 1) + sep + parts[n - 1]
    }
}

/// Where the `k`-th part begins in a joining of more than `k` parts.
pub open spec fn part_start(parts: Seq<Seq<char>>, sep: Seq<char>, k: int) -> int {
    if k <= 0 {
        0
    } else {
        (joined(parts, sep, k).len() + sep.len()) as int
    }
}

/// The beginning of a text that stands at a place stands there.
pub proof fn lemma_has_text_prefix(s: Seq<char>, pos: int, t: Seq<char>, m: int)
    requires
        0 <= pos,
        has_text(s, pos, t),
        0 <= m <= t.len(),
    ensures
        has_text(s, pos, t.subrange(0, m)),
{
    assert(t =~= t.subrange(0, m) + t.subrange(m, t.len() as int));
    lemma_has_text_split(s, pos, t.subrange(0, m), t.subrange(m, t.len() as int));
}

/// The joining of the first parts begins the joining of more of them.
proof fn lemma_joined_prefix(parts: Seq<Seq<char>>, sep: Seq<char>, k: int, n: int)
    requires
        0 <= k <= n <= parts.len(),
    ensures
        joined(parts, sep, k).len() <= joined(parts, sep, n).len(),
        joined(parts, sep, n).subrange(0, joined(parts, sep, k).len() as int) == joined(
            parts,
            sep,
            k,
        ),
    decreases n - k,
{
    if k < n {
        lemma_joined_prefix(parts, sep, k, n - 1);
        let shorter = joined(parts, sep, n - 1);
        let longer = joined(parts, sep, n);
        let part = joined(parts, sep, k);
        assert(longer.subrange(0, part.len() as int) =~= shorter.subrange(0, part.len() as int));
    } else {
        assert(joined(parts, sep, n).subrange(0, joined(parts, sep, n).len() as int) =~= joined(
            parts,
            sep,
            n,
        ));
    }
}

/// In a joining that stands at a place, every part stands at its place, and
/// the separator before every part but the first.
pub proof fn lemma_joined_part_stands(
    s: Seq<char>,
    pos: int,
    parts: Seq<Seq<char>>,
    sep: Seq<char>,
    n: int,
    k: int,
)
    requires
        0 <= pos,
        has_text(s, pos, joined(parts, sep, n)),
        0 <= k < n <= parts.len(),
    ensures
        has_text(s, pos + part_start(parts, sep, k), parts[k]),
        k > 0 ==> has_text(s, pos + joined(parts, sep, k).len(), sep),
        joined(parts, sep, k + 1).len() == part_start(parts, sep, k) + parts[k].len(),
        joined(parts, sep, k + 1).len() <= joined(parts, sep, n).len(),
{
    lemma_joined_prefix(parts, sep, k + 1, n);
    lemma_has_text_prefix(
        s,
        pos,
        joined(parts, sep, n),
        joined(parts, sep, k + 1).len() as int,
    );
    if k > 0 {
        lemma_has_text_split(s, pos, joined(parts, sep, k) + sep, parts[k]);
        lemma_has_text_split(s, pos, joined(parts, sep, k), sep);
    }
}

// ---------------------------------------------------------------------------
// Statements as text
// ---------------------------------------------------------------------------

/// Whether every name of an item is a plain name.
pub open spec fn printable(item: Item) -> bool
    decreases item,
{
    match item {
        Item::Import { what, source } => match what {
            Imported::Default(local) => is_plain_name(local),
            Imported::Namespace(local) => is_plain_name(local),
            Imported::Named(pairs) => forall|i: int|
                0 <= i < pairs.len() ==> is_plain_name((#[trigger] pairs[i]).0) && is_plain_name(
                    pairs[i].1,
                ),
        },
        Item::Variable { kind, name, value } => is_plain_name(name),
        Item::Function { name, params, body } => {
            &&& is_plain_name(name)
            &&& forall|i: int| 0 <= i < params.len() ==> is_plain_name(#[trigger] params[i])
            &&& forall|i: int| 0 <= i < body.len() ==> printable(#[trigger] body[i])
        },
    }
}

/// The text of one name of a named import: the name, or the name, `as` and
/// the local name where that is another.
pub open spec fn pair_text(pair: (Seq<char>, Seq<char>)) -> Seq<char> {
    if pair.0 == pair.1 {
        pair.1
    } else {
        pair.0 + " as "@ + pair.1
    }
}

/// The text of each name of a named import.
pub open spec fn pair_texts(pairs: Seq<(Seq<char>, Seq<char>)>) -> Seq<Seq<char>> {
    Seq::new(pairs.len(), |i: int| pair_text(pairs[i]))
}

/// The text of an import of `what` from `source`.
pub open spec fn import_item_text(what: Imported, source: Seq<char>) -> Seq<char> {
    match what {
        Imported::Default(local) => "import "@ + local + " from "@ + string_text(source),
        Imported::Namespace(local) => "import * as "@ + local + " from "@ + string_text(source),
        Imported::Named(pairs) => "import {"@ + joined(pair_texts(pairs), ","@, pairs.len() as int)
            + "} from "@ + string_text(source),
    }
}

/// The text of an item: what the printer writes for the statement that says
/// it.
pub open spec fn item_text(item: Item) -> Seq<char>
    decreases item, 0int,
{
    match item {
        Item::Import { what, source } => import_item_text(what, source),
        Item::Variable { kind, name, value } => match value {
            None => kind_text(kind) + " "@ + name,
            Some(path) => kind_text(kind) + " "@ + (name + " = "@ + ("require"@ + "("@
                + string_text(path) + ")"@)),
        },
        Item::Function { name, params, body } => "function "@ + name + ("("@ + joined(
            params,
            ","@,
            params.len() as int,
        ) + "){"@ + items_text(body, body.len() as int) + "}"@),
    }
}

/// The texts of the first `n` items, joined by semicolons.
pub open spec fn items_text(items: Seq<Item>, n: int) -> Seq<char>
    decreases items, n,
{
    if n <= 0 || n > items.len() {
        Seq::empty()
    } else if n == 1 {
        item_text(items[0])
    } else {
        items_text(items, n - 1) + ";"@ + item_text(items[n - 1])
    }
}

/// The text of each item.
pub open spec fn item_texts(items: Seq<Item>) -> Seq<Seq<char>> {
    Seq::new(items.len(), |i: int| item_text(items[i]))
}

/// The text of items is the joining of their texts.
proof fn lemma_items_text_is_joined(items: Seq<Item>, n: int)
    requires
        0 <= n <= items.len(),
    ensures
        items_text(items, n) == joined(item_texts(items), ";"@, n),
    decreases n,
{
    if n > 0 {
        lemma_items_text_is_joined(items, n - 1);
    }
}

/// Whether a statement can end at `pos`: the text ends there, or a
/// semicolon or a closing brace stands there.
pub open spec fn ends_statement(s: Seq<char>, pos: int) -> bool {
    pos == s.len() || char_at(s, pos, ';') || char_at(s, pos, '}')
}

/// A plain name begins like a token.
proof fn lemma_name_is_token_start(s: Seq<char>, pos: int, n: Seq<char>)
    requires
        0 <= pos,
        has_text(s, pos, n),
        is_plain_name(n),
    ensures
        is_token_start(s, pos),
        s[pos] != ')',
{
    lemma_has_text_char(s, pos, n, 0);
}

/// After what an import brings in, ` from ` and the printed string are
/// read as the source of the import.
proof fn lemma_import_source_reads(s: Seq<char>, after: int, source: Seq<char>)
    requires
        0 <= after,
        has_text(s, after, " from "@),
        has_text(s, after + 6, string_text(source)),
    ensures
        skip_tokens(s, after) == after + 1,
        has_text(s, after + 1, "from"@),
        string_literal(s, skip_tokens(s, after + 5)) == Ok::<(Seq<char>, int), ParseError>(
            (source, after + 6 + string_text(source).len()),
        ),
        ends_name(s, after),
{
    reveal_strlit(" from ");
    reveal_strlit("from");
    let c = " from "@;
    lemma_has_text_char(s, after, c, 0);
    lemma_has_text_char(s, after, c, 1);
    lemma_has_text_char(s, after, c, 5);
    lemma_skip_space(s, after);
    assert(has_text(s, after + 1, "from"@)) by {
        assert(s.subrange(after + 1, after + 5) =~= "from"@) by {
            lemma_has_text_char(s, after, c, 1);
            lemma_has_text_char(s, after, c, 2);
            lemma_has_text_char(s, after, c, 3);
            lemma_has_text_char(s, after, c, 4);
        }
    }
    lemma_has_text_char(s, after + 6, string_text(source), 0);
    lemma_skip_space(s, after + 5);
    lemma_string_reads(s, after + 6, source);
}

/// What the printer writes for the import of a default export is read as
/// that import.
proof fn lemma_default_import_reads(s: Seq<char>, pos: int, local: Seq<char>, source: Seq<char>)
    requires
        0 <= pos,
        is_plain_name(local),
        has_text(s, pos, import_item_text(Imported::Default(local), source)),
    ensures
        import_statement(s, pos) == Ok::<(Item, int), ParseError>(
            (
                (Item::Import { what: Imported::Default(local), source }),
                pos + import_item_text(Imported::Default(local), source).len(),
            ),
        ),
        has_text(s, pos, "import"@),
{
    reveal_strlit("import ");
    reveal_strlit("import");
    reveal_strlit(" from ");
    let a = "import "@;
    let c = " from "@;
    let d = string_text(source);
    lemma_has_text_split(s, pos, a + local + c, d);
    lemma_has_text_split(s, pos, a + local, c);
    lemma_has_text_split(s, pos, a, local);
    assert(a.subrange(0, 6) =~= "import"@);
    lemma_has_text_prefix(s, pos, a, 6);
    lemma_has_text_char(s, pos, a, 6);
    lemma_name_is_token_start(s, pos + 7, local);
    lemma_has_text_char(s, pos + 7, local, 0);
    lemma_skip_space(s, pos + 6);
    let after_name = pos + 7 + local.len();
    lemma_import_source_reads(s, after_name, source);
    lemma_name_reads(s, pos + 7, local);
}

/// What the printer writes for the import of a whole module is read as that
/// import.
proof fn lemma_namespace_import_reads(s: Seq<char>, pos: int, local: Seq<char>, source: Seq<char>)
    requires
        0 <= pos,
        is_plain_name(local),
        has_text(s, pos, import_item_text(Imported::Namespace(local), source)),
    ensures
        import_statement(s, pos) == Ok::<(Item, int), ParseError>(
            (
                (Item::Import { what: Imported::Namespace(local), source }),
                pos + import_item_text(Imported::Namespace(local), source).len(),
            ),
        ),
        has_text(s, pos, "import"@),
{
    reveal_strlit("import * as ");
    reveal_strlit("import");
    reveal_strlit("as");
    reveal_strlit(" from ");
    let a = "import * as "@;
    let c = " from "@;
    let d = string_text(source);
    lemma_has_text_split(s, pos, a + local + c, d);
    lemma_has_text_split(s, pos, a + local, c);
    lemma_has_text_split(s, pos, a, local);
    assert(a.subrange(0, 6) =~= "import"@);
    lemma_has_text_prefix(s, pos, a, 6);
    lemma_has_text_char(s, pos, a, 6);
    lemma_has_text_char(s, pos, a, 7);
    lemma_has_text_char(s, pos, a, 8);
    lemma_has_text_char(s, pos, a, 9);
    lemma_has_text_char(s, pos, a, 10);
    lemma_has_text_char(s, pos, a, 11);
    lemma_skip_space(s, pos + 6);
    lemma_skip_space(s, pos + 8);
    assert(has_text(s, pos + 9, "as"@)) by {
        assert(s.subrange(pos + 9, pos + 11) =~= "as"@);
    }
    lemma_name_is_token_start(s, pos + 12, local);
    lemma_skip_space(s, pos + 11);
    let after_name = pos + 12 + local.len();
    lemma_import_source_reads(s, after_name, source);
    lemma_name_reads(s, pos + 12, local);
}

/// Whether a name of a named import can end at `pos`: a comma or a closing
/// brace stands there.
pub open spec fn ends_binding(s: Seq<char>, pos: int) -> bool {
    char_at(s, pos, ',') || char_at(s, pos, '}')
}

/// What the printer writes for one name of a named import is read as that
/// name and its local name.
proof fn lemma_binding_reads(s: Seq<char>, pos: int, pair: (Seq<char>, Seq<char>))
    requires
        0 <= pos,
        is_plain_name(pair.0),
        is_plain_name(pair.1),
        has_text(s, pos, pair_text(pair)),
        ends_binding(s, pos + pair_text(pair).len()),
    ensures
        import_binding(s, pos) == Ok::<((Seq<char>, Seq<char>), int), ParseError>(
            (pair, pos + pair_text(pair).len()),
        ),
        is_token_start(s, pos),
        !char_at(s, pos, '}'),
{
    reveal_strlit("as");
    reveal_strlit(" as ");
    if pair.0 == pair.1 {
        lemma_name_is_token_start(s, pos, pair.1);
        lemma_has_text_char(s, pos, pair.1, 0);
        lemma_name_reads(s, pos, pair.1);
        let after = pos + pair.1.len();
        lemma_skip_nothing(s, after);
        if has_text(s, after, "as"@) {
            lemma_has_text_char(s, after, "as"@, 0);
        }
    } else {
        let word = " as "@;
        lemma_has_text_split(s, pos, pair.0 + word, pair.1);
        lemma_has_text_split(s, pos, pair.0, word);
        lemma_name_is_token_start(s, pos, pair.0);
        lemma_has_text_char(s, pos, pair.0, 0);
        let after = pos + pair.0.len();
        lemma_has_text_char(s, after, word, 0);
        lemma_has_text_char(s, after, word, 1);
        lemma_has_text_char(s, after, word, 2);
        lemma_has_text_char(s, after, word, 3);
        lemma_name_reads(s, pos, pair.0);
        lemma_skip_space(s, after);
        assert(has_text(s, after + 1, "as"@)) by {
            assert(s.subrange(after + 1, after + 3) =~= "as"@);
        }
        lemma_name_is_token_start(s, after + 4, pair.1);
        lemma_skip_space(s, after + 3);
        lemma_name_reads(s, after + 4, pair.1);
    }
}

/// The names of a named import from the `k`-th on are read as they were
/// written.
proof fn lemma_binding_list_reads(
    s: Seq<char>,
    pos: int,
    pairs: Seq<(Seq<char>, Seq<char>)>,
    k: int,
)
    requires
        0 <= pos,
        has_text(s, pos, joined(pair_texts(pairs), ","@, pairs.len() as int)),
        forall|i: int|
            0 <= i < pairs.len() ==> is_plain_name((#[trigger] pairs[i]).0) && is_plain_name(
                pairs[i].1,
            ),
        char_at(s, pos + joined(pair_texts(pairs), ","@, pairs.len() as int).len(), '}'),
        0 <= k < pairs.len(),
    ensures
        import_binding_list(s, pos + part_start(pair_texts(pairs), ","@, k)) == Ok::<
            (Seq<(Seq<char>, Seq<char>)>, int),
            ParseError,
        >((pairs.skip(k), pos + joined(pair_texts(pairs), ","@, pairs.len() as int).len())),
    decreases pairs.len() - k,
{
    reveal_strlit(",");
    let n = pairs.len() as int;
    let texts = pair_texts(pairs);
    let start = pos + part_start(texts, ","@, k);
    lemma_joined_part_stands(s, pos, texts, ","@, n, k);
    let after = start + pair_text(pairs[k]).len();
    assert(is_plain_name(pairs[k].0) && is_plain_name(pairs[k].1));
    if k + 1 < n {
        lemma_joined_part_stands(s, pos, texts, ","@, n, k + 1);
        lemma_has_text_char(s, after, ","@, 0);
        lemma_binding_reads(s, start, pairs[k]);
        lemma_skip_nothing(s, after);
        assert(is_plain_name(pairs[k + 1].0) && is_plain_name(pairs[k + 1].1));
        lemma_binding_list_reads(s, pos, pairs, k + 1);
        lemma_pair_starts(s, after + 1, pairs[k + 1]);
        lemma_skip_nothing(s, after + 1);
        assert(seq![pairs[k]] + pairs.skip(k + 1) =~= pairs.skip(k));
    } else {
        lemma_binding_reads(s, start, pairs[k]);
        lemma_skip_nothing(s, after);
        assert(pairs.skip(k) =~= seq![pairs[k]]);
    }
}

/// The text of a name of a named import begins like a token.
proof fn lemma_pair_starts(s: Seq<char>, pos: int, pair: (Seq<char>, Seq<char>))
    requires
        0 <= pos,
        is_plain_name(pair.0),
        is_plain_name(pair.1),
        has_text(s, pos, pair_text(pair)),
    ensures
        is_token_start(s, pos),
        !char_at(s, pos, '}'),
{
    if pair.0 == pair.1 {
        lemma_name_is_token_start(s, pos, pair.1);
        lemma_has_text_char(s, pos, pair.1, 0);
    } else {
        lemma_has_text_split(s, pos, pair.0 + " as "@, pair.1);
        lemma_has_text_split(s, pos, pair.0, " as "@);
        lemma_name_is_token_start(s, pos, pair.0);
        lemma_has_text_char(s, pos, pair.0, 0);
    }
}

/// What the printer writes for an import of names is read as that import.
proof fn lemma_named_import_reads(
    s: Seq<char>,
    pos: int,
    pairs: Seq<(Seq<char>, Seq<char>)>,
    source: Seq<char>,
)
    requires
        0 <= pos,
        forall|i: int|
            0 <= i < pairs.len() ==> is_plain_name((#[trigger] pairs[i]).0) && is_plain_name(
                pairs[i].1,
            ),
        has_text(s, pos, import_item_text(Imported::Named(pairs), source)),
    ensures
        import_statement(s, pos) == Ok::<(Item, int), ParseError>(
            (
                (Item::Import { what: Imported::Named(pairs), source }),
                pos + import_item_text(Imported::Named(pairs), source).len(),
            ),
        ),
        has_text(s, pos, "import"@),
{
    reveal_strlit("import {");
    reveal_strlit("import");
    reveal_strlit("} from ");
    reveal_strlit(" from ");
    let a = "import {"@;
    let list = joined(pair_texts(pairs), ","@, pairs.len() as int);
    let c = "} from "@;
    let d = string_text(source);
    lemma_has_text_split(s, pos, a + list + c, d);
    lemma_has_text_split(s, pos, a + list, c);
    lemma_has_text_split(s, pos, a, list);
    assert(a.subrange(0, 6) =~= "import"@);
    lemma_has_text_prefix(s, pos, a, 6);
    lemma_has_text_char(s, pos, a, 6);
    lemma_has_text_char(s, pos, a, 7);
    lemma_skip_space(s, pos + 6);
    let close = pos + 8 + list.len();
    lemma_has_text_char(s, close, c, 0);
    assert(has_text(s, close + 1, " from "@)) by {
        assert(c.subrange(1, 7) =~= " from "@);
        assert(s.subrange(close + 1, close + 7) =~= " from "@) by {
            lemma_has_text_char(s, close, c, 1);
            lemma_has_text_char(s, close, c, 2);
            lemma_has_text_char(s, close, c, 3);
            lemma_has_text_char(s, close, c, 4);
            lemma_has_text_char(s, close, c, 5);
            lemma_has_text_char(s, close, c, 6);
        }
    }
    lemma_import_source_reads(s, close + 1, source);
    if pairs.len() == 0 {
        assert(pairs =~= Seq::<(Seq<char>, Seq<char>)>::empty());
        lemma_skip_nothing(s, pos + 8);
    } else {
        lemma_joined_part_stands(s, pos + 8, pair_texts(pairs), ","@, pairs.len() as int, 0);
        assert(is_plain_name(pairs[0].0) && is_plain_name(pairs[0].1));
        lemma_pair_starts(s, pos + 8, pairs[0]);
        lemma_skip_nothing(s, pos + 8);
        lemma_binding_list_reads(s, pos + 8, pairs, 0);
        assert(pairs.skip(0) =~= pairs);
    }
}

/// What the printer writes for an import is read as that import.
proof fn lemma_import_reads(s: Seq<char>, pos: int, what: Imported, source: Seq<char>)
    requires
        0 <= pos,
        printable((Item::Import { what, source })),
        has_text(s, pos, import_item_text(what, source)),
    ensures
        import_statement(s, pos) == Ok::<(Item, int), ParseError>(
            ((Item::Import { what, source }), pos + import_item_text(what, source).len()),
        ),
        has_text(s, pos, "import"@),
{
    match what {
        Imported::Default(local) => lemma_default_import_reads(s, pos, local, source),
        Imported::Namespace(local) => lemma_namespace_import_reads(s, pos, local, source),
        Imported::Named(pairs) => lemma_named_import_reads(s, pos, pairs, source),
    }
}

/// What the printer writes for a call of `require` is read as that call.
proof fn lemma_require_reads(s: Seq<char>, pos: int, path: Seq<char>)
    requires
        0 <= pos,
        has_text(s, pos, "require"@ + "("@ + string_text(path) + ")"@),
    ensures
        crate::javascript::statements::require_call(s, pos) == Ok::<(Seq<char>, int), ParseError>(
            (path, pos + ("require"@ + "("@ + string_text(path) + ")"@).len()),
        ),
        is_token_start(s, pos),
{
    reveal_strlit("require");
    reveal_strlit("(");
    reveal_strlit(")");
    let text = string_text(path);
    lemma_has_text_split(s, pos, "require"@ + "("@ + text, ")"@);
    lemma_has_text_split(s, pos, "require"@ + "("@, text);
    lemma_has_text_split(s, pos, "require"@, "("@);
    lemma_has_text_char(s, pos, "require"@, 0);
    lemma_has_text_char(s, pos + 7, "("@, 0);
    lemma_skip_nothing(s, pos + 7);
    lemma_has_text_char(s, pos + 8, text, 0);
    lemma_skip_nothing(s, pos + 8);
    lemma_string_reads(s, pos + 8, path);
    let after = pos + 8 + text.len();
    lemma_has_text_char(s, after, ")"@, 0);
    lemma_skip_nothing(s, after);
}

/// What the printer writes for the declaration of a name is read as that
/// declaration.
proof fn lemma_variable_reads(
    s: Seq<char>,
    pos: int,
    kind: VariableDeclarationKind,
    name: Seq<char>,
    value: Option<Seq<char>>,
)
    requires
        0 <= pos,
        is_plain_name(name),
        has_text(s, pos, item_text((Item::Variable { kind, name, value }))),
        ends_statement(s, pos + item_text((Item::Variable { kind, name, value })).len()),
    ensures
        var_declaration(s, pos) == Ok::<(Item, int), ParseError>(
            (
                (Item::Variable { kind, name, value }),
                pos + item_text((Item::Variable { kind, name, value })).len(),
            ),
        ),
        !has_text(s, pos, "import"@),
        !has_text(s, pos, "function"@),
        has_text(s, pos, "var"@) || has_text(s, pos, "let"@) || has_text(s, pos, "const"@),
{
    reveal_strlit("import");
    reveal_strlit("function");
    reveal_strlit("var");
    reveal_strlit("let");
    reveal_strlit("const");
    reveal_strlit(" ");
    reveal_strlit(" = ");
    let word = kind_text(kind);
    let start = pos + word.len() + 1;
    let end = start + name.len();
    match value {
        None => {
            lemma_has_text_split(s, pos, word + " "@, name);
            lemma_skip_nothing(s, end);
        },
        Some(path) => {
            let call = "require"@ + "("@ + string_text(path) + ")"@;
            lemma_has_text_split(s, pos, word + " "@, name + " = "@ + call);
            lemma_has_text_split(s, start, name + " = "@, call);
            lemma_has_text_split(s, start, name, " = "@);
            lemma_has_text_char(s, end, " = "@, 0);
            lemma_has_text_char(s, end, " = "@, 1);
            lemma_has_text_char(s, end, " = "@, 2);
            lemma_require_reads(s, end + 3, path);
            lemma_skip_space(s, end);
            lemma_skip_space(s, end + 2);
        },
    }
    lemma_has_text_split(s, pos, word, " "@);
    lemma_has_text_char(s, pos, word, 0);
    if has_text(s, pos, "import"@) {
        lemma_has_text_char(s, pos, "import"@, 0);
    }
    if has_text(s, pos, "function"@) {
        lemma_has_text_char(s, pos, "function"@, 0);
    }
    if has_text(s, pos, "var"@) {
        lemma_has_text_char(s, pos, "var"@, 0);
    }
    if has_text(s, pos, "let"@) {
        lemma_has_text_char(s, pos, "let"@, 0);
    }
    lemma_has_text_char(s, pos + word.len(), " "@, 0);
    lemma_name_is_token_start(s, start, name);
    lemma_skip_space(s, pos + word.len());
    lemma_name_reads(s, start, name);
}

/// The names of parameters from the `k`-th on are read as they were
/// written.
proof fn lemma_parameter_names_read(s: Seq<char>, pos: int, names: Seq<Seq<char>>, k: int)
    requires
        0 <= pos,
        has_text(s, pos, joined(names, ","@, names.len() as int)),
        forall|i: int| 0 <= i < names.len() ==> is_plain_name(#[trigger] names[i]),
        char_at(s, pos + joined(names, ","@, names.len() as int).len(), ')'),
        0 <= k < names.len(),
    ensures
        parameter_names(s, pos + part_start(names, ","@, k)) == Ok::<
            (Seq<Seq<char>>, int),
            ParseError,
        >((names.skip(k), pos + joined(names, ","@, names.len() as int).len())),
    decreases names.len() - k,
{
    reveal_strlit(",");
    let n = names.len() as int;
    let start = pos + part_start(names, ","@, k);
    lemma_joined_part_stands(s, pos, names, ","@, n, k);
    let after = start + names[k].len();
    assert(is_plain_name(names[k]));
    if k + 1 < n {
        lemma_joined_part_stands(s, pos, names, ","@, n, k + 1);
        lemma_has_text_char(s, after, ","@, 0);
        lemma_name_reads(s, start, names[k]);
        lemma_skip_nothing(s, after);
        assert(is_plain_name(names[k + 1]));
        lemma_name_is_token_start(s, after + 1, names[k + 1]);
        lemma_skip_nothing(s, after + 1);
        lemma_parameter_names_read(s, pos, names, k + 1);
        assert(seq![names[k]] + names.skip(k + 1) =~= names.skip(k));
    } else {
        lemma_name_reads(s, start, names[k]);
        lemma_skip_nothing(s, after);
        assert(names.skip(k) =~= seq![names[k]]);
    }
}

/// The parameters of a function are read as they were written.
proof fn lemma_parameters_read(s: Seq<char>, pos: int, names: Seq<Seq<char>>)
    requires
        0 <= pos,
        has_text(s, pos, joined(names, ","@, names.len() as int)),
        forall|i: int| 0 <= i < names.len() ==> is_plain_name(#[trigger] names[i]),
        char_at(s, pos + joined(names, ","@, names.len() as int).len(), ')'),
    ensures
        parameters(s, pos) == Ok::<(Seq<Seq<char>>, int), ParseError>(
            (names, pos + joined(names, ","@, names.len() as int).len()),
        ),
        is_token_start(s, pos),
{
    if names.len() == 0 {
        assert(names =~= Seq::<Seq<char>>::empty());
    } else {
        lemma_joined_part_stands(s, pos, names, ","@, names.len() as int, 0);
        assert(is_plain_name(names[0]));
        lemma_name_is_token_start(s, pos, names[0]);
        lemma_parameter_names_read(s, pos, names, 0);
        assert(names.skip(0) =~= names);
    }
}

/// Whether a list of statements can end at `pos`: the text ends there, or
/// a closing brace stands there.
pub open spec fn closes_statements(s: Seq<char>, pos: int) -> bool {
    pos == s.len() || char_at(s, pos, '}')
}

/// No statement begins where a list of statements can end.
proof fn lemma_no_statement_starts(s: Seq<char>, pos: int)
    requires
        closes_statements(s, pos),
    ensures
        !starts_statement(s, pos),
        is_token_start(s, pos),
{
    reveal_strlit("import");
    reveal_strlit("function");
    reveal_strlit("var");
    reveal_strlit("let");
    reveal_strlit("const");
    if has_text(s, pos, "import"@) {
        lemma_has_text_char(s, pos, "import"@, 0);
    }
    if has_text(s, pos, "function"@) {
        lemma_has_text_char(s, pos, "function"@, 0);
    }
    if has_text(s, pos, "var"@) {
        lemma_has_text_char(s, pos, "var"@, 0);
    }
    if has_text(s, pos, "let"@) {
        lemma_has_text_char(s, pos, "let"@, 0);
    }
    if has_text(s, pos, "const"@) {
        lemma_has_text_char(s, pos, "const"@, 0);
    }
}

/// The text of an item begins with a small letter.
proof fn lemma_item_starts(s: Seq<char>, pos: int, item: Item)
    requires
        0 <= pos,
        has_text(s, pos, item_text(item)),
    ensures
        item_text(item).len() > 0,
        is_token_start(s, pos),
{
    reveal_strlit("import ");
    reveal_strlit("import * as ");
    reveal_strlit("import {");
    reveal_strlit("function ");
    reveal_strlit("var");
    reveal_strlit("let");
    reveal_strlit("const");
    match item {
        Item::Import { what, source } => {
            match what {
                Imported::Default(local) => {
                    lemma_has_text_split(s, pos, "import "@ + local + " from "@, string_text(source));
                    lemma_has_text_split(s, pos, "import "@ + local, " from "@);
                    lemma_has_text_split(s, pos, "import "@, local);
                    lemma_has_text_char(s, pos, "import "@, 0);
                },
                Imported::Namespace(local) => {
                    lemma_has_text_split(
                        s,
                        pos,
                        "import * as "@ + local + " from "@,
                        string_text(source),
                    );
                    lemma_has_text_split(s, pos, "import * as "@ + local, " from "@);
                    lemma_has_text_split(s, pos, "import * as "@, local);
                    lemma_has_text_char(s, pos, "import * as "@, 0);
                },
                Imported::Named(pairs) => {
                    let list = joined(pair_texts(pairs), ","@, pairs.len() as int);
                    lemma_has_text_split(s, pos, "import {"@ + list + "} from "@, string_text(source));
                    lemma_has_text_split(s, pos, "import {"@ + list, "} from "@);
                    lemma_has_text_split(s, pos, "import {"@, list);
                    lemma_has_text_char(s, pos, "import {"@, 0);
                },
            }
        },
        Item::Variable { kind, name, value } => {
            match value {
                None => {
                    lemma_has_text_split(s, pos, kind_text(kind) + " "@, name);
                },
                Some(path) => {
                    lemma_has_text_split(
                        s,
                        pos,
                        kind_text(kind) + " "@,
                        name + " = "@ + ("require"@ + "("@ + string_text(path) + ")"@),
                    );
                },
            }
            lemma_has_text_split(s, pos, kind_text(kind), " "@);
            lemma_has_text_char(s, pos, kind_text(kind), 0);
        },
        Item::Function { name, params, body } => {
            let rest = "("@ + joined(params, ","@, params.len() as int) + "){"@ + items_text(
                body,
                body.len() as int,
            ) + "}"@;
            lemma_has_text_split(s, pos, "function "@ + name, rest);
            lemma_has_text_split(s, pos, "function "@, name);
            lemma_has_text_char(s, pos, "function "@, 0);
        },
    }
}

/// What the printer writes for a statement of the grammar is read as the
/// item that the statement says.
pub proof fn lemma_item_reads(s: Seq<char>, pos: int, item: Item)
    requires
        0 <= pos,
        printable(item),
        has_text(s, pos, item_text(item)),
        ends_statement(s, pos + item_text(item).len()),
    ensures
        statement(s, pos) == Ok::<(Item, int), ParseError>(
            (item, statement_end(s, pos + item_text(item).len())),
        ),
        starts_statement(s, pos),
    decreases item, 1int,
{
    match item {
        Item::Import { what, source } => {
            lemma_import_reads(s, pos, what, source);
        },
        Item::Variable { kind, name, value } => {
            lemma_variable_reads(s, pos, kind, name, value);
        },
        Item::Function { name, params, body } => {
            lemma_function_reads(s, pos, name, params, body);
        },
    }
}

/// What the printer writes for a function declaration is read as that
/// declaration.
#[verifier::rlimit(100)]
proof fn lemma_function_reads(
    s: Seq<char>,
    pos: int,
    name: Seq<char>,
    params: Seq<Seq<char>>,
    body: Seq<Item>,
)
    requires
        0 <= pos,
        printable((Item::Function { name, params, body })),
        has_text(s, pos, item_text((Item::Function { name, params, body }))),
    ensures
        function_declaration(s, pos) == Ok::<(Item, int), ParseError>(
            (
                (Item::Function { name, params, body }),
                pos + item_text((Item::Function { name, params, body })).len(),
            ),
        ),
        has_text(s, pos, "function"@),
        !has_text(s, pos, "import"@),
    decreases (Item::Function { name, params, body }), 0int,
{
    reveal_strlit("function ");
    reveal_strlit("function");
    reveal_strlit("import");
    reveal_strlit("(");
    reveal_strlit("){");
    reveal_strlit("}");
    let word = "function "@;
    let list = joined(params, ","@, params.len() as int);
    let inner = items_text(body, body.len() as int);
    let rest = "("@ + list + "){"@ + inner + "}"@;
    lemma_has_text_split(s, pos, word + name, rest);
    lemma_has_text_split(s, pos, word, name);
    let open = pos + 9 + name.len();
    lemma_has_text_split(s, open, "("@ + list + "){"@ + inner, "}"@);
    lemma_has_text_split(s, open, "("@ + list + "){"@, inner);
    lemma_has_text_split(s, open, "("@ + list, "){"@);
    lemma_has_text_split(s, open, "("@, list);
    assert(word.subrange(0, 8) =~= "function"@);
    lemma_has_text_prefix(s, pos, word, 8);
    lemma_has_text_char(s, pos, word, 0);
    lemma_has_text_char(s, pos, word, 8);
    if has_text(s, pos, "import"@) {
        lemma_has_text_char(s, pos, "import"@, 0);
    }
    lemma_name_is_token_start(s, pos + 9, name);
    lemma_skip_space(s, pos + 8);
    lemma_has_text_char(s, open, "("@, 0);
    lemma_name_reads(s, pos + 9, name);
    lemma_skip_nothing(s, open);
    let close = open + 1 + list.len();
    lemma_has_text_char(s, close, "){"@, 0);
    lemma_has_text_char(s, close, "){"@, 1);
    lemma_parameters_read(s, open + 1, params);
    lemma_skip_nothing(s, open + 1);
    lemma_skip_nothing(s, close + 1);
    let inside = close + 2;
    let end = inside + inner.len();
    lemma_has_text_char(s, end, "}"@, 0);
    if body.len() > 0 {
        lemma_items_text_is_joined(body, body.len() as int);
        lemma_joined_part_stands(s, inside, item_texts(body), ";"@, body.len() as int, 0);
        lemma_item_starts(s, inside, body[0]);
    } else {
        lemma_no_statement_starts(s, inside);
    }
    lemma_skip_nothing(s, inside);
    lemma_items_read(s, inside, body, 0);
    assert(body.skip(0) =~= body);
}

/// Statements are read as the first of them and those after it.
proof fn lemma_statements_begin(
    s: Seq<char>,
    pos: int,
    item: Item,
    end: int,
    rest: Seq<Item>,
    stop: int,
)
    requires
        starts_statement(s, pos),
        statement(s, pos) == Ok::<(Item, int), ParseError>((item, end)),
        pos < end <= s.len(),
        statements(s, end) == Ok::<(Seq<Item>, int), ParseError>((rest, stop)),
    ensures
        statements(s, pos) == Ok::<(Seq<Item>, int), ParseError>((seq![item] + rest, stop)),
{
}

/// A semicolon before a token closes a statement, and the next begins at
/// the token.
proof fn lemma_semicolon_closes(s: Seq<char>, after: int)
    requires
        char_at(s, after, ';'),
        is_token_start(s, after + 1),
    ensures
        statement_end(s, after) == after + 1,
{
    lemma_skip_nothing(s, after);
    lemma_skip_nothing(s, after + 1);
}

/// Where a list of statements can end, a statement ends as it stands, and
/// no statement follows.
proof fn lemma_list_closes(s: Seq<char>, after: int)
    requires
        0 <= after,
        closes_statements(s, after),
    ensures
        statement_end(s, after) == after,
        statements(s, after) == Ok::<(Seq<Item>, int), ParseError>((Seq::<Item>::empty(), after)),
{
    lemma_no_statement_starts(s, after);
    lemma_skip_nothing(s, after);
}

/// Where the `k`-th item stands in the text of items, and what follows it.
proof fn lemma_item_stands(s: Seq<char>, pos: int, items: Seq<Item>, k: int)
    requires
        0 <= pos,
        has_text(s, pos, items_text(items, items.len() as int)),
        0 <= k < items.len(),
    ensures
        has_text(s, pos + part_start(item_texts(items), ";"@, k), item_text(items[k])),
        item_text(items[k]).len() > 0,
        is_token_start(s, pos + part_start(item_texts(items), ";"@, k)),
        pos + part_start(item_texts(items), ";"@, k) + item_text(items[k]).len() <= pos
            + items_text(items, items.len() as int).len(),
        k + 1 < items.len() ==> char_at(
            s,
            pos + part_start(item_texts(items), ";"@, k) + item_text(items[k]).len(),
            ';',
        ) && pos + part_start(item_texts(items), ";"@, k + 1) == pos + part_start(
            item_texts(items),
            ";"@,
            k,
        ) + item_text(items[k]).len() + 1,
        k + 1 == items.len() ==> pos + part_start(item_texts(items), ";"@, k) + item_text(
            items[k],
        ).len() == pos + items_text(items, items.len() as int).len(),
{
    reveal_strlit(";");
    let n = items.len() as int;
    let texts = item_texts(items);
    lemma_items_text_is_joined(items, n);
    lemma_joined_part_stands(s, pos, texts, ";"@, n, k);
    let start = pos + part_start(texts, ";"@, k);
    lemma_item_starts(s, start, items[k]);
    if k + 1 < n {
        lemma_joined_part_stands(s, pos, texts, ";"@, n, k + 1);
        lemma_has_text_char(s, start + item_text(items[k]).len(), ";"@, 0);
    }
}

/// What the printer writes for the items from the `k`-th on is read as
/// those items.
pub proof fn lemma_items_read(s: Seq<char>, pos: int, items: Seq<Item>, k: int)
    requires
        0 <= pos,
        forall|i: int| 0 <= i < items.len() ==> printable(#[trigger] items[i]),
        has_text(s, pos, items_text(items, items.len() as int)),
        closes_statements(s, pos + items_text(items, items.len() as int).len()),
        0 <= k < items.len() || (k == 0 && items.len() == 0),
    ensures
        statements(s, pos + part_start(item_texts(items), ";"@, k)) == Ok::<
            (Seq<Item>, int),
            ParseError,
        >((items.skip(k), pos + items_text(items, items.len() as int).len())),
    decreases items, items.len() - k,
{
    let n = items.len() as int;
    let stop = pos + items_text(items, n).len();
    if n == 0 {
        lemma_list_closes(s, pos);
        assert(items.skip(0) =~= Seq::<Item>::empty());
    } else {
        let start = pos + part_start(item_texts(items), ";"@, k);
        let after = start + item_text(items[k]).len();
        lemma_item_stands(s, pos, items, k);
        assert(printable(items[k]));
        if k + 1 < n {
            lemma_item_stands(s, pos, items, k + 1);
            lemma_item_reads(s, start, items[k]);
            lemma_semicolon_closes(s, after);
            lemma_items_read(s, pos, items, k + 1);
            lemma_statements_begin(s, start, items[k], after + 1, items.skip(k + 1), stop);
            assert(seq![items[k]] + items.skip(k + 1) =~= items.skip(k));
        } else {
            lemma_item_reads(s, start, items[k]);
            lemma_list_closes(s, after);
            lemma_statements_begin(s, start, items[k], after, Seq::<Item>::empty(), stop);
            assert(seq![items[k]] + Seq::<Item>::empty() =~= items.skip(k));
        }
    }
}

// ---------------------------------------------------------------------------
// Trees as text
// ---------------------------------------------------------------------------

/// The parameters of a function that are names are printed as the names,
/// joined by commas.
proof fn lemma_patterns_text_is_joined(params: Seq<Pattern>, wanted: Seq<Seq<char>>, n: int)
    requires
        params.len() == wanted.len(),
        forall|i: int| 0 <= i < wanted.len() ==> names(wanted[i], #[trigger] params[i]),
        0 <= n <= params.len(),
    ensures
        patterns_text(params, n) == joined(wanted, ","@, n),
    decreases n,
{
    reveal_with_fuel(patterns_text, 2);
    if n > 0 {
        lemma_patterns_text_is_joined(params, wanted, n - 1);
        assert(names(wanted[n - 1], params[n - 1]));
        assert(names(wanted[0], params[0]));
        assert(crate::javascript::syntax::pattern_text(params[n - 1]) == wanted[n - 1]);
        assert(crate::javascript::syntax::pattern_text(params[0]) == wanted[0]);
    }
}

/// The names of a named import are printed as their texts, joined by
/// commas.
proof fn lemma_bindings_text_is_joined(
    bindings: Seq<ImportBinding>,
    pairs: Seq<(Seq<char>, Seq<char>)>,
    n: int,
)
    requires
        binds(pairs, bindings),
        0 <= n <= pairs.len(),
    ensures
        import_bindings_text(bindings, n) == joined(pair_texts(pairs), ","@, n),
    decreases n,
{
    if n > 0 {
        lemma_bindings_text_is_joined(bindings, pairs, n - 1);
        assert(bindings[n - 1].imported@ == pairs[n - 1].0);
        assert(bindings[0].imported@ == pairs[0].0);
    }
}

/// The printer writes a call of `require` as the word, and the string in
/// parentheses.
proof fn lemma_require_text(e: crate::javascript::ast::Expression, path: Seq<char>)
    requires
        crate::javascript::statements::is_require(e, path),
    ensures
        crate::javascript::syntax::wrapped_text(e, 2) == "require"@ + "("@ + string_text(path)
            + ")"@,
{
    reveal_with_fuel(crate::javascript::syntax::expressions_text, 2);
    reveal_with_fuel(crate::javascript::syntax::expression_text, 2);
    reveal_with_fuel(crate::javascript::syntax::wrapped_text, 2);
    let callee = *e->Call_callee;
    let argument = e->Call_arguments@[0];
    assert(crate::javascript::syntax::wrapped_text(callee, 16) == "require"@);
    assert(crate::javascript::syntax::wrapped_text(argument, 2) == string_text(path));
}

/// The printer writes for a statement of the grammar the text of the item
/// that the statement says.
pub proof fn lemma_statement_text_is_item_text(item: Item, st: Statement)
    requires
        describes(item, st),
    ensures
        statement_text(st) == item_text(item),
    decreases item, 1int,
{
    reveal_with_fuel(statement_text, 3);
    match item {
        Item::Import { what, source } => {
            assert(statement_text(st) == crate::javascript::syntax::import_text(
                st->Import_0,
                st->Import_1@,
            ));
            match what {
                Imported::Named(pairs) => {
                    let bindings = st->Import_0->Import_0;
                    lemma_bindings_text_is_joined(bindings@, pairs, pairs.len() as int);
                },
                _ => {},
            }
        },
        Item::Variable { kind, name, value } => {
            let declaration = st->VariableDeclaration_declaration;
            reveal_with_fuel(crate::javascript::syntax::declarators_text, 3);
            assert(statement_text(st) == crate::javascript::syntax::declaration_text(declaration));
            match value {
                None => {
                    assert(crate::javascript::syntax::declarator_text(declaration.declarations@[0])
                        == name);
                },
                Some(path) => {
                    let e = declaration.declarations@[0].init->Some_0;
                    lemma_require_text(e, path);
                    assert(crate::javascript::syntax::declarator_text(declaration.declarations@[0])
                        == name + " = "@ + ("require"@ + "("@ + string_text(path) + ")"@));
                },
            }
        },
        Item::Function { name, params, body } => {
            let declaration = st->FunctionDeclaration_declaration;
            assert(statement_text(st) == crate::javascript::syntax::function_declaration_text(
                declaration,
            ));
            assert(crate::javascript::syntax::function_text(declaration.function) == "("@
                + patterns_text(
                declaration.function.params@,
                declaration.function.params@.len() as int,
            ) + "){"@ + function_body_text(
                declaration.function.body@,
                declaration.function.body@.len() as int,
            ) + "}"@);
            lemma_patterns_text_is_joined(
                declaration.function.params@,
                params,
                params.len() as int,
            );
            lemma_body_text_is_items_text(body, declaration.function.body@, body.len() as int);
        },
    }
}

/// The printer writes for the body of a function the texts of the items
/// that its statements say, joined by semicolons.
proof fn lemma_body_text_is_items_text(items: Seq<Item>, body: Seq<FunctionBodyStatement>, n: int)
    requires
        items.len() == body.len(),
        forall|i: int| 0 <= i < items.len() ==> describes_in_body(items[i], #[trigger] body[i]),
        0 <= n <= items.len(),
    ensures
        function_body_text(body, n) == items_text(items, n),
    decreases items, n,
{
    reveal_with_fuel(function_body_text, 2);
    if n > 0 {
        lemma_body_text_is_items_text(items, body, n - 1);
        assert(describes_in_body(items[n - 1], body[n - 1]));
        lemma_statement_text_is_item_text(items[n - 1], body[n - 1]->Statement_0);
        assert(describes_in_body(items[0], body[0]));
        lemma_statement_text_is_item_text(items[0], body[0]->Statement_0);
    }
}

/// The printer writes for statements of the grammar the texts of the items
/// that they say, joined by semicolons.
pub proof fn lemma_statements_text_is_items_text(items: Seq<Item>, v: Seq<Statement>, n: int)
    requires
        describes_all(items, v),
        0 <= n <= items.len(),
    ensures
        statements_text(v, n) == items_text(items, n),
    decreases n,
{
    if n > 0 {
        lemma_statements_text_is_items_text(items, v, n - 1);
        lemma_statement_text_is_item_text(items[n - 1], v[n - 1]);
        lemma_statement_text_is_item_text(items[0], v[0]);
    }
}

/// Two trees that say the same items are printed alike.
pub proof fn lemma_same_items_same_text(p: Program, q: Program, items: Seq<Item>)
    requires
        describes_program(items, p),
        describes_program(items, q),
    ensures
        program_text(p) == program_text(q),
{
    lemma_statements_text_is_items_text(items, p.body@, items.len() as int);
    lemma_statements_text_is_items_text(items, q.body@, items.len() as int);
}

/// Reading what the printer wrote for a module of the grammar gives the
/// module back: the text of a tree whose statements say `items`, all of
/// whose names are plain, is read as `items`.
pub proof fn lemma_printed_program_reads(p: Program, items: Seq<Item>)
    requires
        describes_program(items, p),
        forall|i: int| 0 <= i < items.len() ==> printable(#[trigger] items[i]),
    ensures
        program(program_text(p)) == Ok::<Seq<Item>, ParseError>(items),
{
    let s = program_text(p);
    let n = items.len() as int;
    lemma_statements_text_is_items_text(items, p.body@, n);
    assert(s.subrange(0, s.len() as int) =~= s);
    lemma_items_read(s, 0, items, 0);
    assert(items.skip(0) =~= items);
    if n > 0 {
        lemma_items_text_is_joined(items, n);
        lemma_joined_part_stands(s, 0, item_texts(items), ";"@, n, 0);
        lemma_item_starts(s, 0, items[0]);
    }
    lemma_skip_nothing(s, 0);
}

} // verus!
