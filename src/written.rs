use vstd::prelude::*;
use crate::lexer::TokenStream;
use crate::parser::{
    ParseErrorView,
    parse_array_rest,
    parse_document,
    parse_elements,
    parse_members,
    parse_object_rest,
    parse_value,
    token_at,
};
use crate::tokens::TokenView;
use crate::values::{
    ValueView,
    insert_member,
    key_index,
    keys_unique,
    lemma_key_index_bounds,
    well_formed,
};

verus! {

/// A comma after the last item or member of a container, when `trailing`.
pub open spec fn trailer(trailing: bool) -> Seq<TokenView> {
    if trailing {
        seq![TokenView::Comma]
    } else {
        seq![]
    }
}

/// The tokens of a value as a document writes it: keys as string literals,
/// items and members separated by commas, and after the last item or member
/// of each non-empty container a comma when `trailing`.
pub open spec fn value_tokens(v: ValueView, trailing: bool) -> Seq<TokenView>
    decreases v, 0int,
{
    match v {
        ValueView::Str(s) => seq![TokenView::StringLiteral(s)],
        ValueView::Int(n) => seq![TokenView::IntegerLiteral(n)],
        ValueView::Float(s) => seq![TokenView::FloatLiteral(s)],
        ValueView::Bool(b) => seq![TokenView::BoolLiteral(b)],
        ValueView::Null => seq![TokenView::Null],
        ValueView::Array(items) => seq![TokenView::ArrayOpen] + items_tokens(items, 0, trailing) + seq![
            TokenView::ArrayClose,
        ],
        ValueView::Object(ps) => seq![TokenView::ObjectOpen] + members_tokens(ps, 0, trailing) + seq![
            TokenView::ObjectClose,
        ],
    }
}

/// The tokens of `items[k..]`, separated by commas.
pub open spec fn items_tokens(items: Seq<ValueView>, k: int, trailing: bool) -> Seq<TokenView>
    decreases items, items.len() - k,
{
    if 0 <= k < items.len() {
        if k == items.len() - 1 {
            value_tokens(items[k], trailing) + trailer(trailing)
        } else {
            value_tokens(items[k], trailing) + seq![TokenView::Comma] + items_tokens(
                items,
                k + 1,
                trailing,
            )
        }
    } else {
        seq![]
    }
}

/// The tokens of the members `ps[k..]`, separated by commas.
pub open spec fn members_tokens(
    ps: Seq<(Seq<char>, ValueView)>,
    k: int,
    trailing: bool,
) -> Seq<TokenView>
    decreases ps, ps.len() - k,
{
    if 0 <= k < ps.len() {
        let pair = seq![TokenView::StringLiteral(ps[k].0), TokenView::Colon] + value_tokens(
            ps[k].1,
            trailing,
        );
        if k == ps.len() - 1 {
            pair + trailer(trailing)
        } else {
            pair + seq![TokenView::Comma] + members_tokens(ps, k + 1, trailing)
        }
    } else {
        seq![]
    }
}

/// The stream holds `toks` from index `i` on.
pub open spec fn tokens_at(ts: TokenStream, i: int, toks: Seq<TokenView>) -> bool {
    &&& 0 <= i
    &&& i + toks.len() <= ts.tokens.len()
    &&& forall|m: int| 0 <= m < toks.len() ==> ts.tokens[i + m] == toks[m]
}

/// A token that can start a value, as opposed to a closing bracket or a comma.
pub open spec fn opens_value(t: TokenView) -> bool {
    !(t is ArrayClose || t is ObjectClose || t is Comma)
}

proof fn lemma_split(ts: TokenStream, i: int, a: Seq<TokenView>, b: Seq<TokenView>)
    requires
        tokens_at(ts, i, a + b),
    ensures
        tokens_at(ts, i, a),
        tokens_at(ts, i + a.len(), b),
{
    assert forall|m: int| 0 <= m < a.len() implies ts.tokens[i + m] == a[m] by {
        assert((a + b)[m] == a[m]);
    }
    assert forall|m: int| 0 <= m < b.len() implies ts.tokens[i + a.len() + m] == b[m] by {
        assert((a + b)[a.len() + m] == b[m]);
        assert(i + a.len() + m == i + (a.len() + m));
    }
}

proof fn lemma_first(v: ValueView, tc: bool)
    ensures
        value_tokens(v, tc).len() > 0,
        opens_value(value_tokens(v, tc)[0]),
{
    match v {
        ValueView::Array(items) => {
            let inner = items_tokens(items, 0, tc);
            assert((seq![TokenView::ArrayOpen] + inner + seq![TokenView::ArrayClose])[0]
                == TokenView::ArrayOpen);
        },
        ValueView::Object(ps) => {
            let inner = members_tokens(ps, 0, tc);
            assert((seq![TokenView::ObjectOpen] + inner + seq![TokenView::ObjectClose])[0]
                == TokenView::ObjectOpen);
        },
        _ => {},
    }
}

proof fn lemma_items_first(items: Seq<ValueView>, k: int, tc: bool)
    requires
        0 <= k < items.len(),
    ensures
        items_tokens(items, k, tc).len() > 0,
        items_tokens(items, k, tc)[0] == value_tokens(items[k], tc)[0],
{
    lemma_first(items[k], tc);
    let vt = value_tokens(items[k], tc);
    if k < items.len() - 1 {
        assert((vt + seq![TokenView::Comma] + items_tokens(items, k + 1, tc))[0] == vt[0]);
    } else {
        assert((vt + trailer(tc))[0] == vt[0]);
    }
}

proof fn lemma_members_first(ps: Seq<(Seq<char>, ValueView)>, k: int, tc: bool)
    requires
        0 <= k < ps.len(),
    ensures
        members_tokens(ps, k, tc).len() > 0,
        members_tokens(ps, k, tc)[0] == TokenView::StringLiteral(ps[k].0),
{
    let pair = seq![TokenView::StringLiteral(ps[k].0), TokenView::Colon] + value_tokens(
        ps[k].1,
        tc,
    );
    assert(pair[0] == TokenView::StringLiteral(ps[k].0));
    if k < ps.len() - 1 {
        assert((pair + seq![TokenView::Comma] + members_tokens(ps, k + 1, tc))[0] == pair[0]);
    } else {
        assert((pair + trailer(tc))[0] == pair[0]);
    }
}

/// The tokens of a container's contents and its closing bracket, seen from
/// index `i`, give the bracket after the contents.
proof fn lemma_contents(ts: TokenStream, i: int, inner: Seq<TokenView>, close: Seq<TokenView>)
    requires
        close.len() == 1,
        0 <= i,
        i + 1 + inner.len() < ts.tokens.len(),
        tokens_at(ts, i + 1, inner),
        ts.tokens[i + 1 + inner.len()] == close[0],
    ensures
        tokens_at(ts, i + 1, inner + close),
{
    assert forall|m: int| 0 <= m < (inner + close).len() implies ts.tokens[i + 1 + m] == (inner
        + close)[m] by {
        if m < inner.len() {
            assert(ts.tokens[i + 1 + m] == inner[m]);
        } else {
            assert((inner + close)[m] == close[0]);
        }
    }
}

proof fn lemma_value(ts: TokenStream, i: int, v: ValueView, tc: bool)
    requires
        well_formed(v),
        tokens_at(ts, i, value_tokens(v, tc)),
    ensures
        parse_value(ts, i) == Ok::<(ValueView, int), ParseErrorView>(
            (v, i + value_tokens(v, tc).len()),
        ),
    decreases v, 0int,
{
    lemma_first(v, tc);
    assert(ts.tokens[i + 0] == value_tokens(v, tc)[0]);
    match v {
        ValueView::Array(items) => {
            let open = seq![TokenView::ArrayOpen];
            let close = seq![TokenView::ArrayClose];
            let inner = items_tokens(items, 0, tc);
            lemma_split(ts, i, open + inner, close);
            lemma_split(ts, i, open, inner);
            assert(ts.tokens[i + 1 + inner.len() + 0] == close[0]);
            if items.len() == 0 {
                assert(items =~= Seq::<ValueView>::empty());
                assert(parse_array_rest(ts, i + 1) == Ok::<(ValueView, int), ParseErrorView>(
                    (ValueView::Array(seq![]), i + 2),
                ));
            } else {
                lemma_contents(ts, i, inner, close);
                lemma_elements(ts, i + 1, items, 0, tc);
                lemma_items_first(items, 0, tc);
                lemma_first(items[0], tc);
                assert(ts.tokens[i + 1 + 0] == inner[0]);
                assert(items.take(0) =~= Seq::<ValueView>::empty());
            }
        },
        ValueView::Object(ps) => {
            let open = seq![TokenView::ObjectOpen];
            let close = seq![TokenView::ObjectClose];
            let inner = members_tokens(ps, 0, tc);
            lemma_split(ts, i, open + inner, close);
            lemma_split(ts, i, open, inner);
            assert(ts.tokens[i + 1 + inner.len() + 0] == close[0]);
            if ps.len() == 0 {
                assert(ps =~= Seq::<(Seq<char>, ValueView)>::empty());
                assert(parse_object_rest(ts, i + 1) == Ok::<(ValueView, int), ParseErrorView>(
                    (ValueView::Object(seq![]), i + 2),
                ));
            } else {
                lemma_contents(ts, i, inner, close);
                lemma_members(ts, i + 1, ps, 0, tc);
                lemma_members_first(ps, 0, tc);
                assert(ts.tokens[i + 1 + 0] == inner[0]);
                assert(ps.take(0) =~= Seq::<(Seq<char>, ValueView)>::empty());
            }
        },
        _ => {},
    }
}

proof fn lemma_elements(ts: TokenStream, i: int, items: Seq<ValueView>, k: int, tc: bool)
    requires
        0 <= k < items.len(),
        forall|m: int| 0 <= m < items.len() ==> well_formed(#[trigger] items[m]),
        tokens_at(ts, i, items_tokens(items, k, tc) + seq![TokenView::ArrayClose]),
    ensures
        parse_elements(ts, i, items.take(k)) == Ok::<(ValueView, int), ParseErrorView>(
            (ValueView::Array(items), i + items_tokens(items, k, tc).len() + 1),
        ),
    decreases items, items.len() - k,
{
    let vt = value_tokens(items[k], tc);
    let close = seq![TokenView::ArrayClose];
    let comma = seq![TokenView::Comma];
    lemma_first(items[k], tc);
    if k == items.len() - 1 {
        assert(vt + trailer(tc) + close =~= vt + (trailer(tc) + close));
        lemma_split(ts, i, vt, trailer(tc) + close);
        lemma_value(ts, i, items[k], tc);
        assert(ts.tokens[i + vt.len() + 0] == (trailer(tc) + close)[0]);
        if tc {
            assert(ts.tokens[i + vt.len() + 1] == (trailer(tc) + close)[1]);
        }
        assert(items.take(k).push(items[k]) =~= items);
    } else {
        let rest = items_tokens(items, k + 1, tc);
        assert(vt + comma + rest + close =~= vt + (comma + (rest + close)));
        lemma_split(ts, i, vt, comma + (rest + close));
        lemma_split(ts, i + vt.len(), comma, rest + close);
        lemma_value(ts, i, items[k], tc);
        assert(ts.tokens[i + vt.len() + 0] == comma[0]);
        lemma_elements(ts, i + vt.len() + 1, items, k + 1, tc);
        lemma_items_first(items, k + 1, tc);
        lemma_first(items[k + 1], tc);
        assert(ts.tokens[i + vt.len() + 1 + 0] == (rest + close)[0]);
        assert(items.take(k).push(items[k]) =~= items.take(k + 1));
    }
}

proof fn lemma_members(ts: TokenStream, i: int, ps: Seq<(Seq<char>, ValueView)>, k: int, tc: bool)
    requires
        0 <= k < ps.len(),
        keys_unique(ps),
        forall|m: int| 0 <= m < ps.len() ==> well_formed(#[trigger] ps[m].1),
        tokens_at(ts, i, members_tokens(ps, k, tc) + seq![TokenView::ObjectClose]),
    ensures
        parse_members(ts, i, ps.take(k)) == Ok::<(ValueView, int), ParseErrorView>(
            (ValueView::Object(ps), i + members_tokens(ps, k, tc).len() + 1),
        ),
    decreases ps, ps.len() - k,
{
    let head = seq![TokenView::StringLiteral(ps[k].0), TokenView::Colon];
    let vt = value_tokens(ps[k].1, tc);
    let pair = head + vt;
    let close = seq![TokenView::ObjectClose];
    let comma = seq![TokenView::Comma];
    lemma_first(ps[k].1, tc);
    let acc = ps.take(k);
    lemma_key_index_bounds(acc, ps[k].0);
    if key_index(acc, ps[k].0) >= 0 {
        assert(acc[key_index(acc, ps[k].0)].0 == ps[k].0);
    }
    assert(insert_member(acc, ps[k].0, ps[k].1) =~= ps.take(k + 1));
    if k == ps.len() - 1 {
        assert(pair + trailer(tc) + close =~= pair + (trailer(tc) + close));
        lemma_split(ts, i, pair, trailer(tc) + close);
        lemma_split(ts, i, head, vt);
        assert(ts.tokens[i + 0] == head[0]);
        assert(ts.tokens[i + 1] == head[1]);
        lemma_value(ts, i + 2, ps[k].1, tc);
        assert(ts.tokens[i + pair.len() + 0] == (trailer(tc) + close)[0]);
        if tc {
            assert(ts.tokens[i + pair.len() + 1] == (trailer(tc) + close)[1]);
        }
        assert(ps.take(k + 1) =~= ps);
    } else {
        let rest = members_tokens(ps, k + 1, tc);
        assert(pair + comma + rest + close =~= pair + (comma + (rest + close)));
        lemma_split(ts, i, pair, comma + (rest + close));
        lemma_split(ts, i + pair.len(), comma, rest + close);
        lemma_split(ts, i, head, vt);
        assert(ts.tokens[i + 0] == head[0]);
        assert(ts.tokens[i + 1] == head[1]);
        lemma_value(ts, i + 2, ps[k].1, tc);
        assert(ts.tokens[i + pair.len() + 0] == comma[0]);
        lemma_members(ts, i + pair.len() + 1, ps, k + 1, tc);
        lemma_members_first(ps, k + 1, tc);
        assert(ts.tokens[i + pair.len() + 1 + 0] == (rest + close)[0]);
    }
}

/// A well-formed object written out as tokens parses back to the same object,
/// member for member and item for item, whether or not its containers end
/// with a trailing comma, and whatever follows it in the stream.
pub proof fn lemma_written_document_parses(
    v: ValueView,
    trailing: bool,
    more: Seq<TokenView>,
    stop: Option<ParseErrorView>,
)
    requires
        v is Object,
        well_formed(v),
    ensures
        parse_document(TokenStream { tokens: value_tokens(v, trailing) + more, stop }) == Ok::<
            ValueView,
            ParseErrorView,
        >(v),
{
    let toks = value_tokens(v, trailing);
    let ts = TokenStream { tokens: toks + more, stop };
    assert forall|m: int| 0 <= m < toks.len() implies ts.tokens[0 + m] == toks[m] by {
        assert(ts.tokens[0 + m] == (toks + more)[m]);
    }
    lemma_value(ts, 0, v, trailing);
    let ps = v->Object_0;
    assert((seq![TokenView::ObjectOpen] + members_tokens(ps, 0, trailing) + seq![
        TokenView::ObjectClose,
    ])[0] == TokenView::ObjectOpen);
    assert(ts.tokens[0] == toks[0]);
}

} // verus!
