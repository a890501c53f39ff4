//! The subscripts of an Einstein-notation contraction, `einsum("bij,bjk->bik", a, b)`.

use vstd::prelude::*;

use super::{concat3, malformed, LoweringError, LoweringErrorView};
use crate::text::{chars_of, decimal, decimal_digits, occurs_at, occurs_in, push_char, string_of};

verus! {

/// The separator between the operands' subscripts and the result's.
pub open spec fn arrow() -> Seq<char> {
    seq!['-', '>']
}

/// Whether `needle` occurs in `hay` at `at` and nowhere before.
pub open spec fn is_first_occurrence(hay: Seq<char>, needle: Seq<char>, at: int) -> bool {
    occurs_at(hay, needle, at) && forall|a: int| 0 <= a < at ==> !occurs_at(hay, needle, a)
}

/// The pieces of `s` between the occurrences of `sep`, in order, as `str::split` gives
/// them: one more piece than there are separators.
pub open spec fn split_at_char(s: Seq<char>, sep: char) -> Seq<Seq<char>>
    decreases s.len(),
{
    if s.len() == 0 {
        seq![Seq::empty()]
    } else {
        let init = split_at_char(s.drop_last(), sep);
        if s.last() == sep {
            init.push(Seq::empty())
        } else {
            init.update(init.len() - 1, init.last().push(s.last()))
        }
    }
}

/// Splitting always yields at least one piece.
proof fn lemma_split_nonempty(s: Seq<char>, sep: char)
    ensures
        split_at_char(s, sep).len() >= 1,
    decreases s.len(),
{
    if s.len() > 0 {
        lemma_split_nonempty(s.drop_last(), sep);
    }
}

/// The pieces joined back together with `sep` between each two.
pub open spec fn join_with(pieces: Seq<Seq<char>>, sep: char) -> Seq<char>
    decreases pieces.len(),
{
    if pieces.len() == 0 {
        Seq::empty()
    } else if pieces.len() == 1 {
        pieces[0]
    } else {
        join_with(pieces.drop_last(), sep) + seq![sep] + pieces.last()
    }
}

/// Splitting at a character and joining the pieces back with it gives the text back,
/// and no piece holds the character.
pub proof fn lemma_split_then_join(s: Seq<char>, sep: char)
    ensures
        join_with(split_at_char(s, sep), sep) == s,
        forall|i: int, j: int|
            0 <= i < split_at_char(s, sep).len() && 0 <= j < split_at_char(s, sep)[i].len()
                ==> #[trigger] split_at_char(s, sep)[i][j] != sep,
    decreases s.len(),
{
    lemma_split_nonempty(s, sep);
    if s.len() == 0 {
        assert(join_with(seq![Seq::<char>::empty()], sep) == Seq::<char>::empty());
    } else {
        let init = split_at_char(s.drop_last(), sep);
        lemma_split_then_join(s.drop_last(), sep);
        lemma_split_nonempty(s.drop_last(), sep);
        let pieces = split_at_char(s, sep);
        if s.last() == sep {
            assert(pieces == init.push(Seq::empty()));
            assert(pieces.drop_last() =~= init);
            assert(join_with(pieces, sep) =~= join_with(init, sep) + seq![sep]);
            assert(s =~= s.drop_last() + seq![sep]);
        } else {
            let last = init.last().push(s.last());
            assert(pieces == init.update(init.len() - 1, last));
            if init.len() == 1 {
                assert(join_with(pieces, sep) == last);
            } else {
                assert(pieces.drop_last() =~= init.drop_last());
                assert(join_with(pieces, sep) == join_with(init.drop_last(), sep) + seq![sep] + last);
            }
            assert(join_with(pieces, sep) =~= join_with(init, sep).push(s.last()));
            assert(s =~= s.drop_last().push(s.last()));
        }
        assert forall|i: int, j: int| 0 <= i < pieces.len() && 0 <= j < pieces[i].len() implies #[trigger] pieces[i][j]
            != sep by {
            if i < init.len() && !(s.last() != sep && i == init.len() - 1 && j == init[i].len()) {
                assert(pieces[i][j] == init[i][j]);
            }
        }
    }
}

/// The character sequences of a list of character vectors.
pub open spec fn pieces_view(pieces: Seq<Vec<char>>) -> Seq<Seq<char>> {
    pieces.map_values(|p: Vec<char>| p@)
}

/// What a subscript string without an arrow is reported as.
pub open spec fn missing_arrow_detail(text: Seq<char>) -> Seq<char> {
    "`einsum(\""@ + text + "\", ...)` reached lowering without a `->`"@
}

/// Split a subscript string into each operand's letters and the result's: the text
/// before the first `->`, cut at every `,`, and the text after it.
pub fn split_subscripts(text: &str) -> (r: Result<(Vec<Vec<char>>, Vec<char>), LoweringError>)
    ensures
        match r {
            Ok((inputs, output)) => exists|at: int|
                #[trigger] is_first_occurrence(text@, arrow(), at) && pieces_view(inputs@)
                    == split_at_char(text@.take(at), ',') && output@ == text@.skip(at + 2),
            Err(e) => !occurs_in(text@, arrow()) && e@ == (LoweringErrorView::Malformed {
                detail: missing_arrow_detail(text@),
            }),
        },
{
    let chars = chars_of(text);
    let n = chars.len();
    let mut at: usize = 0;
    let mut found = false;
    while !found && at < n && n - at >= 2
        invariant
            n == chars@.len(),
            chars@ == text@,
            at <= n,
            found ==> at + 1 < n && occurs_at(text@, arrow(), at as int),
            forall|a: int| 0 <= a < at ==> !occurs_at(text@, arrow(), a),
        decreases (n - at) as int + if found { 0int } else { 1int },
    {
        if chars[at] == '-' && chars[at + 1] == '>' {
            assert(text@.subrange(at as int, at + 2) =~= arrow());
            found = true;
        } else {
            proof {
                if occurs_at(text@, arrow(), at as int) {
                    assert(text@.subrange(at as int, at + 2)[0] == '-');
                    assert(text@.subrange(at as int, at + 2)[1] == '>');
                }
            }
            at = at + 1;
        }
    }
    if !found {
        assert forall|a: int| !occurs_at(text@, arrow(), a) by {
            if occurs_at(text@, arrow(), a) {
                assert(a < at);
            }
        }
        proof {
            reveal_strlit("`einsum(\"");
            reveal_strlit("\", ...)` reached lowering without a `->`");
        }
        return Err(
            malformed(concat3("`einsum(\"", text, "\", ...)` reached lowering without a `->`")),
        );
    }
    let mut pieces: Vec<Vec<char>> = Vec::new();
    let mut current: Vec<char> = Vec::new();
    let mut i: usize = 0;
    while i < at
        invariant
            n == chars@.len(),
            chars@ == text@,
            at + 1 < n,
            i <= at,
            pieces_view(pieces@).push(current@) == split_at_char(text@.take(i as int), ','),
        decreases at - i,
    {
        let c = chars[i];
        proof {
            assert(text@.take(i + 1).drop_last() =~= text@.take(i as int));
            lemma_split_nonempty(text@.take(i as int), ',');
        }
        if c == ',' {
            let done = current;
            pieces.push(done);
            current = Vec::new();
            assert(pieces_view(pieces@).push(current@) =~= split_at_char(text@.take(i + 1), ','));
        } else {
            current.push(c);
            assert(pieces_view(pieces@).push(current@) =~= split_at_char(text@.take(i + 1), ','));
        }
        i = i + 1;
    }
    pieces.push(current);
    assert(pieces_view(pieces@) =~= split_at_char(text@.take(at as int), ','));
    let mut output: Vec<char> = Vec::new();
    let mut j: usize = at + 2;
    while j < n
        invariant
            n == chars@.len(),
            chars@ == text@,
            at + 2 <= j <= n,
            output@ == text@.subrange(at + 2, j as int),
        decreases n - j,
    {
        output.push(chars[j]);
        j = j + 1;
    }
    assert(output@ =~= text@.skip(at + 2));
    assert(is_first_occurrence(text@, arrow(), at as int));
    Ok((pieces, output))
}

/// The index of the first occurrence of `c` in `letters`.
pub open spec fn first_index(letters: Seq<char>, c: char) -> Option<int>
    decreases letters.len(),
{
    if letters.len() == 0 {
        None
    } else {
        match first_index(letters.drop_last(), c) {
            Some(i) => Some(i),
            None => if letters.last() == c {
                Some(letters.len() - 1)
            } else {
                None
            },
        }
    }
}

/// A found index points at the letter, and stays found in any extension.
proof fn lemma_first_index(letters: Seq<char>, c: char, n: int)
    requires
        0 <= n <= letters.len(),
        first_index(letters.take(n), c) is Some,
    ensures
        first_index(letters, c) == first_index(letters.take(n), c),
        0 <= first_index(letters, c)->0 < n,
        letters[first_index(letters, c)->0] == c,
    decreases letters.len() - n,
{
    if n < letters.len() {
        assert(letters.take(n + 1).drop_last() =~= letters.take(n));
        lemma_first_index_points(letters.take(n), c);
        lemma_first_index(letters, c, n + 1);
    } else {
        assert(letters.take(n) =~= letters);
        lemma_first_index_points(letters, c);
    }
}

/// A found index points at the letter.
proof fn lemma_first_index_points(letters: Seq<char>, c: char)
    requires
        first_index(letters, c) is Some,
    ensures
        0 <= first_index(letters, c)->0 < letters.len(),
        letters[first_index(letters, c)->0] == c,
    decreases letters.len(),
{
    if first_index(letters.drop_last(), c) is Some {
        lemma_first_index_points(letters.drop_last(), c);
    }
}

/// Why a contraction's subscripts do not fit its operands.
pub enum EinsumFailure {
    /// The subscript of operand `operand` has a different length than its rank.
    Rank { operand: int },
    /// A letter is bound to two different extents.
    Conflict { letter: char, bound: nat, found: nat },
    /// The contraction has no operand.
    NoOperands,
    /// The result names a letter no operand binds.
    Unbound { letter: char },
}

/// The letters bound so far, in order of first appearance, and the extent of each.
pub type Binding = (Seq<char>, Seq<usize>);

/// Binding `c` to the extent `x`: a new letter is appended, a known one must agree.
pub open spec fn bind_letter(st: Binding, c: char, x: usize) -> Result<Binding, EinsumFailure> {
    match first_index(st.0, c) {
        Some(i) => if st.1[i] == x {
            Ok(st)
        } else {
            Err(EinsumFailure::Conflict { letter: c, bound: st.1[i] as nat, found: x as nat })
        },
        None => Ok((st.0.push(c), st.1.push(x))),
    }
}

/// Binding each of `letters` to the extent at its position, in order.
pub open spec fn bind_letters(st: Binding, letters: Seq<char>, extents: Seq<usize>) -> Result<
    Binding,
    EinsumFailure,
>
    decreases letters.len(),
{
    if letters.len() == 0 {
        Ok(st)
    } else {
        match bind_letters(st, letters.drop_last(), extents.take(letters.len() - 1)) {
            Err(f) => Err(f),
            Ok(s) => bind_letter(s, letters.last(), extents[letters.len() - 1]),
        }
    }
}

/// Binding the subscripts of the operands in order, each against its operand's shape.
pub open spec fn bind_operands(subscripts: Seq<Seq<char>>, shapes: Seq<Seq<usize>>) -> Result<
    Binding,
    EinsumFailure,
>
    decreases subscripts.len(),
{
    if subscripts.len() == 0 {
        Ok((Seq::empty(), Seq::empty()))
    } else {
        let k = subscripts.len() - 1;
        match bind_operands(subscripts.drop_last(), shapes.take(k)) {
            Err(f) => Err(f),
            Ok(st) => if shapes[k].len() != subscripts[k].len() {
                Err(EinsumFailure::Rank { operand: k })
            } else {
                bind_letters(st, subscripts[k], shapes[k])
            },
        }
    }
}

/// The first position of `output` whose letter is not bound.
pub open spec fn first_unbound(output: Seq<char>, letters: Seq<char>) -> Option<int>
    decreases output.len(),
{
    if output.len() == 0 {
        None
    } else {
        match first_unbound(output.drop_last(), letters) {
            Some(t) => Some(t),
            None => if first_index(letters, output.last()) is None {
                Some(output.len() - 1)
            } else {
                None
            },
        }
    }
}

/// The index tables of a contraction, as sequences.
pub struct EinsumTablesView {
    pub inputs: Seq<Seq<usize>>,
    pub output: Seq<usize>,
    pub extents: Seq<usize>,
}

/// The index of each letter of `letters` among the bound letters `bound`.
pub open spec fn indices_of(letters: Seq<char>, bound: Seq<char>) -> Seq<usize> {
    Seq::new(letters.len(), |j: int| first_index(bound, letters[j])->0 as usize)
}

/// What a contraction's subscripts resolve to against its operands' shapes: every
/// letter numbered in order of first appearance with the extent it is first bound to,
/// and each subscript as those numbers.
pub open spec fn einsum_tables(
    subscripts: Seq<Seq<char>>,
    shapes: Seq<Seq<usize>>,
    output: Seq<char>,
) -> Result<EinsumTablesView, EinsumFailure> {
    match bind_operands(subscripts, shapes) {
        Err(f) => Err(f),
        Ok(st) => if subscripts.len() == 0 {
            Err(EinsumFailure::NoOperands)
        } else {
            match first_unbound(output, st.0) {
                Some(t) => Err(EinsumFailure::Unbound { letter: output[t] }),
                None => Ok(
                    EinsumTablesView {
                        inputs: Seq::new(subscripts.len(), |k: int| indices_of(subscripts[k], st.0)),
                        output: indices_of(output, st.0),
                        extents: st.1,
                    },
                ),
            }
        },
    }
}

/// The message a failure is reported with.
pub open spec fn failure_detail(
    f: EinsumFailure,
    subscripts: Seq<Seq<char>>,
    shapes: Seq<Seq<usize>>,
) -> Seq<char> {
    match f {
        EinsumFailure::Rank { operand } => "`einsum` reached lowering with subscript '"@
            + subscripts[operand] + "' on a rank-"@ + decimal_digits(shapes[operand].len())
            + " operand"@,
        EinsumFailure::Conflict { letter, bound, found } => "`einsum` reached lowering binding '"@
            + seq![letter] + "' to both "@ + decimal_digits(bound) + " and "@ + decimal_digits(
            found,
        ),
        EinsumFailure::NoOperands => "`einsum` reached lowering with no operands"@,
        EinsumFailure::Unbound { letter } => "`einsum` reached lowering with the unbound output letter '"@
            + seq![letter] + "'"@,
    }
}

/// The index tables a contraction carries.
#[derive(Debug, Clone, PartialEq)]
pub struct EinsumTables {
    /// Each operand's axes, as indices into `extents`.
    pub inputs: Vec<Vec<usize>>,
    /// The result's axes, as indices into `extents`.
    pub output: Vec<usize>,
    /// The extent of each letter, letters in order of first appearance.
    pub extents: Vec<usize>,
}

impl View for EinsumTables {
    type V = EinsumTablesView;

    open spec fn view(&self) -> EinsumTablesView {
        EinsumTablesView {
            inputs: self.inputs@.map_values(|v: Vec<usize>| v@),
            output: self.output@,
            extents: self.extents@,
        }
    }
}

/// The first occurrence of `c` in `letters`.
fn find_letter(letters: &Vec<char>, c: char) -> (found: Option<usize>)
    ensures
        match found {
            Some(i) => first_index(letters@, c) == Some(i as int),
            None => first_index(letters@, c) is None,
        },
{
    let mut i: usize = 0;
    while i < letters.len()
        invariant
            i <= letters@.len(),
            first_index(letters@.take(i as int), c) is None,
        decreases letters@.len() - i,
    {
        assert(letters@.take(i + 1).drop_last() =~= letters@.take(i as int));
        if letters[i] == c {
            proof {
                lemma_first_index(letters@, c, i + 1);
            }
            return Some(i);
        }
        i = i + 1;
    }
    assert(letters@.take(i as int) =~= letters@);
    None
}

/// The text of a letter.
fn letter_text(c: char) -> (s: String)
    ensures
        s@ == seq![c],
{
    let mut s = String::new();
    push_char(&mut s, c);
    s
}

/// Resolve a contraction's subscripts against its operands' shapes into the index
/// tables it carries: each letter is numbered in order of first appearance and bound to
/// an extent, and every subscript becomes those numbers. A subscript whose length is
/// not its operand's rank, a letter bound to two extents, a contraction without
/// operands, and a result letter no operand binds are refused, the first met in that
/// order of reading.
pub fn bind_subscripts(
    subscripts: &Vec<Vec<char>>,
    shapes: &Vec<Vec<usize>>,
    output: &Vec<char>,
) -> (r: Result<EinsumTables, LoweringError>)
    requires
        subscripts@.len() == shapes@.len(),
    ensures
        match r {
            Ok(tables) => einsum_tables(pieces_view(subscripts@), shapes_view(shapes@), output@)
                == Ok::<EinsumTablesView, EinsumFailure>(tables@),
            Err(e) => einsum_tables(pieces_view(subscripts@), shapes_view(shapes@), output@) matches Err(
                f,
            ) && e@ == (LoweringErrorView::Malformed {
                detail: failure_detail(f, pieces_view(subscripts@), shapes_view(shapes@)),
            }),
        },
{
    let ghost subs = pieces_view(subscripts@);
    let ghost shs = shapes_view(shapes@);
    let n = subscripts.len();
    let mut letters: Vec<char> = Vec::new();
    let mut extents: Vec<usize> = Vec::new();
    let mut resolved: Vec<Vec<usize>> = Vec::new();
    let mut k: usize = 0;
    while k < n
        invariant
            n == subscripts@.len(),
            n == shapes@.len(),
            subs == pieces_view(subscripts@),
            shs == shapes_view(shapes@),
            k <= n,
            bind_operands(subs.take(k as int), shs.take(k as int)) == Ok::<Binding, EinsumFailure>(
                (letters@, extents@),
            ),
            resolved@.len() == k,
            letters@.len() == extents@.len(),
            forall|a: int, j: int|
                0 <= a < k && 0 <= j < subs[a].len() ==> first_index(letters@, subs[a][j])
                    == Some(#[trigger] resolved@[a]@[j] as int),
            forall|a: int| 0 <= a < k ==> #[trigger] resolved@[a]@.len() == subs[a].len(),
        decreases n - k,
    {
        let subscript = &subscripts[k];
        let shape = &shapes[k];
        proof {
            assert(subs.take(k + 1).drop_last() =~= subs.take(k as int));
            assert(shs.take(k + 1).take(k as int) =~= shs.take(k as int));
            assert(subs.take(k + 1)[k as int] == subscript@);
            assert(shs.take(k + 1)[k as int] == shape@);
        }
        if shape.len() != subscript.len() {
            let mut detail = concat3(
                "`einsum` reached lowering with subscript '",
                string_of(subscript).as_str(),
                "' on a rank-",
            );
            detail.append(decimal(shape.len() as u64).as_str());
            detail.append(" operand");
            proof {
                lemma_operands_fail_from(subs, shs, k as int + 1);
            }
            return Err(malformed(detail));
        }
        let ghost st0: Binding = (letters@, extents@);
        let mut axes: Vec<usize> = Vec::new();
        let mut j: usize = 0;
        while j < subscript.len()
            invariant
                n == subscripts@.len(),
                n == shapes@.len(),
                subs == pieces_view(subscripts@),
                shs == shapes_view(shapes@),
                k < n,
                subscript@ == subs[k as int],
                shape@ == shs[k as int],
                shape@.len() == subscript@.len(),
                j <= subscript@.len(),
                bind_letters(st0, subscript@.take(j as int), shape@.take(j as int)) == Ok::<
                    Binding,
                    EinsumFailure,
                >((letters@, extents@)),
                forall|i: int| 0 <= i < st0.0.len() ==> #[trigger] letters@[i] == st0.0[i],
                st0.0.len() <= letters@.len(),
                letters@.len() == extents@.len(),
                bind_operands(subs.take(k as int), shs.take(k as int)) == Ok::<Binding, EinsumFailure>(
                    st0,
                ),
                subs.take(k + 1).drop_last() == subs.take(k as int),
                shs.take(k + 1).take(k as int) == shs.take(k as int),
                subs.take(k + 1)[k as int] == subscript@,
                shs.take(k + 1)[k as int] == shape@,
                resolved@.len() == k,
                forall|a: int, i: int|
                    0 <= a < k && 0 <= i < subs[a].len() ==> first_index(letters@, subs[a][i])
                        == Some(#[trigger] resolved@[a]@[i] as int),
                forall|a: int| 0 <= a < k ==> #[trigger] resolved@[a]@.len() == subs[a].len(),
                axes@.len() == j,
                forall|i: int|
                    0 <= i < j ==> first_index(letters@, subscript@[i]) == Some(#[trigger] axes@[i] as int),
            decreases subscript@.len() - j,
        {
            let c = subscript[j];
            let x = shape[j];
            proof {
                assert(subscript@.take(j + 1).drop_last() =~= subscript@.take(j as int));
                assert(shape@.take(j + 1).take(j as int) =~= shape@.take(j as int));
            }
            match find_letter(&letters, c) {
                Some(index) => {
                    proof {
                        lemma_first_index_points(letters@, c);
                    }
                    if extents[index] != x {
                        let mut detail = concat3(
                            "`einsum` reached lowering binding '",
                            letter_text(c).as_str(),
                            "' to both ",
                        );
                        detail.append(decimal(extents[index] as u64).as_str());
                        detail.append(" and ");
                        detail.append(decimal(x as u64).as_str());
                        proof {
                            lemma_letters_fail_from(st0, subscript@, shape@, j as int + 1);
                            lemma_operands_fail_from(subs, shs, k as int + 1);
                        }
                        return Err(malformed(detail));
                    }
                    axes.push(index);
                },
                None => {
                    proof {
                        lemma_first_index_push(letters@, c);
                    }
                    letters.push(c);
                    extents.push(x);
                    axes.push(letters.len() - 1);
                },
            }
            j = j + 1;
        }
        proof {
            assert(subscript@.take(j as int) =~= subscript@);
            assert(shape@.take(j as int) =~= shape@);
        }
        resolved.push(axes);
        k = k + 1;
    }
    proof {
        assert(subs.take(n as int) =~= subs);
        assert(shs.take(n as int) =~= shs);
    }
    if n == 0 {
        return Err(malformed(String::from_str("`einsum` reached lowering with no operands")));
    }
    let mut out_axes: Vec<usize> = Vec::new();
    let mut t: usize = 0;
    while t < output.len()
        invariant
            t <= output@.len(),
            subs == pieces_view(subscripts@),
            shs == shapes_view(shapes@),
            subs.len() > 0,
            bind_operands(subs, shs) == Ok::<Binding, EinsumFailure>((letters@, extents@)),
            first_unbound(output@.take(t as int), letters@) is None,
            out_axes@.len() == t,
            forall|i: int|
                0 <= i < t ==> first_index(letters@, output@[i]) == Some(#[trigger] out_axes@[i] as int),
        decreases output@.len() - t,
    {
        let c = output[t];
        proof {
            assert(output@.take(t + 1).drop_last() =~= output@.take(t as int));
        }
        match find_letter(&letters, c) {
            Some(index) => {
                out_axes.push(index);
            },
            None => {
                proof {
                    lemma_unbound_from(output@, letters@, t as int + 1);
                }
                return Err(
                    malformed(
                        concat3(
                            "`einsum` reached lowering with the unbound output letter '",
                            letter_text(c).as_str(),
                            "'",
                        ),
                    ),
                );
            },
        }
        t = t + 1;
    }
    proof {
        assert(output@.take(t as int) =~= output@);
        assert forall|a: int| 0 <= a < n implies #[trigger] resolved@[a]@ =~= indices_of(
            subs[a],
            letters@,
        ) by {
            assert forall|j: int| 0 <= j < subs[a].len() implies resolved@[a]@[j] == indices_of(
                subs[a],
                letters@,
            )[j] by {
                assert(first_index(letters@, subs[a][j]) == Some(resolved@[a]@[j] as int));
            }
        }
        assert(out_axes@ =~= indices_of(output@, letters@));
    }
    let tables = EinsumTables { inputs: resolved, output: out_axes, extents };
    assert(tables@.inputs =~= Seq::new(subs.len(), |a: int| indices_of(subs[a], letters@)));
    Ok(tables)
}

/// Pushing a letter the list lacks numbers it last and leaves the others alone.
proof fn lemma_first_index_push(letters: Seq<char>, c: char)
    requires
        first_index(letters, c) is None,
    ensures
        first_index(letters.push(c), c) == Some(letters.len() as int),
        forall|d: char| #[trigger] first_index(letters, d) is Some ==> first_index(letters.push(c), d)
            == first_index(letters, d),
{
    assert(letters.push(c).drop_last() =~= letters);
}

/// A refusal while binding a prefix of the letters is the refusal of all of them.
proof fn lemma_letters_fail_from(st: Binding, letters: Seq<char>, extents: Seq<usize>, m: int)
    requires
        0 <= m <= letters.len(),
        letters.len() == extents.len(),
        bind_letters(st, letters.take(m), extents.take(m)) is Err,
    ensures
        bind_letters(st, letters, extents) == bind_letters(st, letters.take(m), extents.take(m)),
    decreases letters.len() - m,
{
    if m < letters.len() {
        assert(letters.take(m + 1).drop_last() =~= letters.take(m));
        assert(extents.take(m + 1).take(m) =~= extents.take(m));
        lemma_letters_fail_from(st, letters, extents, m + 1);
    } else {
        assert(letters.take(m) =~= letters);
        assert(extents.take(m) =~= extents);
    }
}

/// A refusal while binding a prefix of the operands is the refusal of all of them.
proof fn lemma_operands_fail_from(subscripts: Seq<Seq<char>>, shapes: Seq<Seq<usize>>, m: int)
    requires
        0 <= m <= subscripts.len(),
        subscripts.len() == shapes.len(),
        bind_operands(subscripts.take(m), shapes.take(m)) is Err,
    ensures
        bind_operands(subscripts, shapes) == bind_operands(subscripts.take(m), shapes.take(m)),
    decreases subscripts.len() - m,
{
    if m < subscripts.len() {
        assert(subscripts.take(m + 1).drop_last() =~= subscripts.take(m));
        assert(shapes.take(m + 1).take(m) =~= shapes.take(m));
        lemma_operands_fail_from(subscripts, shapes, m + 1);
    } else {
        assert(subscripts.take(m) =~= subscripts);
        assert(shapes.take(m) =~= shapes);
    }
}

/// An unbound letter in a prefix of the result is its first unbound letter.
proof fn lemma_unbound_from(output: Seq<char>, letters: Seq<char>, m: int)
    requires
        0 <= m <= output.len(),
        first_unbound(output.take(m), letters) is Some,
    ensures
        first_unbound(output, letters) == first_unbound(output.take(m), letters),
    decreases output.len() - m,
{
    if m < output.len() {
        assert(output.take(m + 1).drop_last() =~= output.take(m));
        lemma_unbound_from(output, letters, m + 1);
    } else {
        assert(output.take(m) =~= output);
    }
}

/// The view of each operand's shape.
pub open spec fn shapes_view(shapes: Seq<Vec<usize>>) -> Seq<Seq<usize>> {
    shapes.map_values(|v: Vec<usize>| v@)
}

/// Whether the binding `later` extends `earlier`: it keeps every letter and extent.
pub open spec fn extends(earlier: Binding, later: Binding) -> bool {
    &&& earlier.0.len() <= later.0.len()
    &&& earlier.0.len() == earlier.1.len()
    &&& later.0.len() == later.1.len()
    &&& later.0.take(earlier.0.len() as int) == earlier.0
    &&& later.1.take(earlier.1.len() as int) == earlier.1
}

/// Whether `letter` is bound to `extent` in `st`.
pub open spec fn bound_to(st: Binding, letter: char, extent: usize) -> bool {
    first_index(st.0, letter) matches Some(i) && i < st.1.len() && st.1[i] == extent
}

/// A letter bound in a binding stays bound, to the same extent, in any extension.
proof fn lemma_extends_keeps(earlier: Binding, later: Binding, letter: char, extent: usize)
    requires
        extends(earlier, later),
        bound_to(earlier, letter, extent),
    ensures
        bound_to(later, letter, extent),
{
    let n = earlier.0.len() as int;
    assert(later.0.take(n) == earlier.0);
    lemma_first_index(later.0, letter, n);
    let i = first_index(earlier.0, letter)->0;
    lemma_first_index_points(earlier.0, letter);
    assert(later.1.take(n)[i] == later.1[i]);
}

/// Extension is transitive.
proof fn lemma_extends_trans(a: Binding, b: Binding, c: Binding)
    requires
        extends(a, b),
        extends(b, c),
    ensures
        extends(a, c),
{
    assert(c.0.take(a.0.len() as int) =~= b.0.take(a.0.len() as int));
    assert(c.1.take(a.1.len() as int) =~= b.1.take(a.1.len() as int));
}

/// Binding each of `letters` extends the binding and binds each letter to the extent
/// at its position.
proof fn lemma_bind_letters(st: Binding, letters: Seq<char>, extents: Seq<usize>)
    requires
        st.0.len() == st.1.len(),
        letters.len() == extents.len(),
        bind_letters(st, letters, extents) is Ok,
    ensures
        extends(st, bind_letters(st, letters, extents)->Ok_0),
        forall|j: int|
            0 <= j < letters.len() ==> bound_to(
                bind_letters(st, letters, extents)->Ok_0,
                #[trigger] letters[j],
                extents[j],
            ),
    decreases letters.len(),
{
    let result = bind_letters(st, letters, extents)->Ok_0;
    if letters.len() == 0 {
        assert(st.0.take(st.0.len() as int) =~= st.0);
        assert(st.1.take(st.1.len() as int) =~= st.1);
    } else {
        let n = letters.len() - 1;
        let prefix = letters.drop_last();
        let prefix_extents = extents.take(n);
        lemma_bind_letters(st, prefix, prefix_extents);
        let mid = bind_letters(st, prefix, prefix_extents)->Ok_0;
        let c = letters.last();
        let x = extents[n];
        assert(result == bind_letter(mid, c, x)->Ok_0);
        match first_index(mid.0, c) {
            Some(i) => {
                lemma_first_index_points(mid.0, c);
                assert(result == mid);
                assert(mid.0.take(mid.0.len() as int) =~= mid.0);
                assert(mid.1.take(mid.1.len() as int) =~= mid.1);
            },
            None => {
                lemma_first_index_push(mid.0, c);
                assert(result.0.take(mid.0.len() as int) =~= mid.0);
                assert(result.1.take(mid.1.len() as int) =~= mid.1);
            },
        }
        assert(extends(mid, result));
        lemma_extends_trans(st, mid, result);
        assert forall|j: int| 0 <= j < letters.len() implies bound_to(result, #[trigger] letters[j], extents[j]) by {
            if j < n {
                assert(prefix[j] == letters[j]);
                assert(prefix_extents[j] == extents[j]);
                lemma_extends_keeps(mid, result, letters[j], extents[j]);
            }
        }
    }
}

/// Binding the operands binds every letter of every subscript to its operand's extent
/// at that axis.
proof fn lemma_bind_operands(subscripts: Seq<Seq<char>>, shapes: Seq<Seq<usize>>)
    requires
        subscripts.len() == shapes.len(),
        bind_operands(subscripts, shapes) is Ok,
    ensures
        bind_operands(subscripts, shapes)->Ok_0.0.len() == bind_operands(subscripts, shapes)->Ok_0.1.len(),
        forall|k: int| 0 <= k < subscripts.len() ==> #[trigger] shapes[k].len() == subscripts[k].len(),
        forall|k: int, j: int|
            0 <= k < subscripts.len() && 0 <= j < subscripts[k].len() ==> bound_to(
                bind_operands(subscripts, shapes)->Ok_0,
                #[trigger] subscripts[k][j],
                shapes[k][j],
            ),
    decreases subscripts.len(),
{
    if subscripts.len() > 0 {
        let k = subscripts.len() - 1;
        let before = subscripts.drop_last();
        let before_shapes = shapes.take(k);
        lemma_bind_operands(before, before_shapes);
        let mid = bind_operands(before, before_shapes)->Ok_0;
        let result = bind_operands(subscripts, shapes)->Ok_0;
        assert(shapes[k].len() == subscripts[k].len());
        lemma_bind_letters(mid, subscripts[k], shapes[k]);
        assert(result == bind_letters(mid, subscripts[k], shapes[k])->Ok_0);
        assert forall|a: int| 0 <= a < subscripts.len() implies #[trigger] shapes[a].len() == subscripts[a].len() by {
            if a < k {
                assert(before_shapes[a] == shapes[a]);
                assert(before[a] == subscripts[a]);
                assert(before_shapes[a].len() == before[a].len());
            }
        }
        assert forall|a: int, j: int|
            0 <= a < subscripts.len() && 0 <= j < subscripts[a].len() implies bound_to(
                result,
                #[trigger] subscripts[a][j],
                shapes[a][j],
            ) by {
            if a < k {
                assert(before[a] == subscripts[a]);
                assert(before_shapes[a] == shapes[a]);
                assert(bound_to(mid, before[a][j], before_shapes[a][j]));
                lemma_extends_keeps(mid, result, subscripts[a][j], shapes[a][j]);
            } else {
                assert(bound_to(result, subscripts[k][j], shapes[k][j]));
            }
        }
    }
}

/// With no unbound letter, every letter of the result is bound.
proof fn lemma_no_unbound(output: Seq<char>, letters: Seq<char>)
    requires
        first_unbound(output, letters) is None,
    ensures
        forall|i: int| 0 <= i < output.len() ==> first_index(letters, #[trigger] output[i]) is Some,
    decreases output.len(),
{
    if output.len() > 0 {
        lemma_no_unbound(output.drop_last(), letters);
        assert forall|i: int| 0 <= i < output.len() implies first_index(letters, #[trigger] output[i]) is Some by {
            if i < output.len() - 1 {
                assert(output.drop_last()[i] == output[i]);
            }
        }
    }
}

/// The tables a contraction resolves to, where it resolves.
pub open spec fn tables_of(
    subscripts: Seq<Seq<char>>,
    shapes: Seq<Seq<usize>>,
    output: Seq<char>,
) -> EinsumTablesView {
    einsum_tables(subscripts, shapes, output)->Ok_0
}

/// A letter means one extent everywhere: every axis of every operand is numbered by an
/// entry of the extent table equal to that axis's own extent, and every result axis by
/// an entry of the table.
pub proof fn lemma_tables_agree_with_shapes(
    subscripts: Seq<Seq<char>>,
    shapes: Seq<Seq<usize>>,
    output: Seq<char>,
)
    requires
        subscripts.len() == shapes.len(),
        einsum_tables(subscripts, shapes, output) is Ok,
        tables_of(subscripts, shapes, output).extents.len() <= usize::MAX,
    ensures
        forall|k: int, j: int|
            0 <= k < subscripts.len() && 0 <= j < subscripts[k].len() ==> #[trigger] tables_of(
                subscripts,
                shapes,
                output,
            ).inputs[k][j] < tables_of(subscripts, shapes, output).extents.len() && tables_of(
                subscripts,
                shapes,
                output,
            ).extents[tables_of(subscripts, shapes, output).inputs[k][j] as int] == shapes[k][j],
        forall|i: int|
            0 <= i < output.len() ==> #[trigger] tables_of(subscripts, shapes, output).output[i]
                < tables_of(subscripts, shapes, output).extents.len(),
{
    lemma_bind_operands(subscripts, shapes);
    let st = bind_operands(subscripts, shapes)->Ok_0;
    let t = einsum_tables(subscripts, shapes, output)->Ok_0;
    assert forall|k: int, j: int| 0 <= k < subscripts.len() && 0 <= j < subscripts[k].len() implies #[trigger] t.inputs[k][j]
        < t.extents.len() && t.extents[t.inputs[k][j] as int] == shapes[k][j] by {
        assert(bound_to(st, subscripts[k][j], shapes[k][j]));
        lemma_first_index_points(st.0, subscripts[k][j]);
    }
    lemma_no_unbound(output, st.0);
    assert forall|i: int| 0 <= i < output.len() implies #[trigger] t.output[i] < t.extents.len() by {
        assert(first_index(st.0, output[i]) is Some);
        lemma_first_index_points(st.0, output[i]);
    }
}

/// What a contraction with a different number of operands than subscripts is reported
/// as.
pub open spec fn operand_count_detail(text: Seq<char>, operands: nat, subscripts: nat) -> Seq<char> {
    "`einsum(\""@ + text + "\", ...)` reached lowering with "@ + decimal_digits(operands)
        + " operands for "@ + decimal_digits(subscripts) + " subscripts"@
}

/// Refuse a contraction of `text`, whose subscripts are `inputs`, written with
/// `operands` operands, unless there is one operand per subscript.
pub fn check_operand_count(text: &str, inputs: &Vec<Vec<char>>, operands: usize) -> (r: Result<
    (),
    LoweringError,
>)
    ensures
        r is Ok <==> operands == inputs@.len(),
        r matches Err(e) ==> e@ == (LoweringErrorView::Malformed {
            detail: operand_count_detail(text@, operands as nat, inputs@.len()),
        }),
{
    if inputs.len() == operands {
        return Ok(());
    }
    let mut detail = concat3("`einsum(\"", text, "\", ...)` reached lowering with ");
    detail.append(decimal(operands as u64).as_str());
    detail.append(" operands for ");
    detail.append(decimal(inputs.len() as u64).as_str());
    detail.append(" subscripts");
    Err(malformed(detail))
}

} // verus!
