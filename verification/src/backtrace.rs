//! The await point backtrace of a task in words: what each future of the
//! tree of values is, and which futures it waits for.
use vstd::prelude::*;
use crate::text::{decimal, push_decimal, push_text, string_of};
use crate::value::{
    values_view, AsyncFnValue, AsyncFnValueView, FutureValue, FutureValueKind,
    FutureValueKindView, FutureValueView,
};

verus! {

/// A part of a line of text, with whether it is to stand out.
pub type Part = (String, bool);

/// The mathematical value of a [`Part`].
pub type PartView = (Seq<char>, bool);

/// The mathematical values of the parts of a line.
pub open spec fn parts_view(parts: Seq<Part>) -> Seq<PartView> {
    parts.map_values(|p: Part| (p.0@, p.1))
}

/// What is said of the state in which the future of an `async` function
/// is: the name of the state, where it lies in the source, and whether it
/// waits for another future; or the discriminant that no state has.
pub open spec fn state_words(value: AsyncFnValueView) -> Seq<PartView> {
    match value.state_value {
        Ok(state) => seq![(state.state.name, true)] + (match state.state.source {
            Some(source) => seq![(" ("@, false), (source.text(), true), (")"@, false)],
            None => Seq::empty(),
        }) + (if state.awaitee is Some {
            seq![(" on:"@, false)]
        } else {
            Seq::empty()
        }),
        Err(discriminant) => seq![
            ("<invalid discriminant "@ + decimal(discriminant as nat) + ">"@, true),
        ],
    }
}

/// The line that says what the future `value` is and what it waits for.
pub open spec fn headline_of(value: FutureValueView) -> Seq<PartView> {
    match value.kind {
        FutureValueKindView::AsyncFn(v) => seq![
            ("Function "@, false),
            (value.ty.text(), true),
            (" is waiting at "@, false),
        ] + state_words(v),
        FutureValueKindView::SelectValue(awaitees) => seq![
            ("Select waiting on one of "@, false),
            (decimal(awaitees.len()), true),
            (" futures:"@, false),
        ],
        FutureValueKindView::JoinValue(awaitees) => seq![
            ("Join waiting on "@, false),
            (decimal(awaitees.len()), true),
            (" futures:"@, false),
        ],
        FutureValueKindView::Unknown(_) => seq![(value.ty.text(), false)],
    }
}

/// The futures that the future `value` waits for, each with the number by
/// which it is told from the others: the discriminant of the state for the
/// awaitee of an `async` function, the position for the awaitees of a
/// select or join future.
pub open spec fn awaitees_of(value: FutureValueView) -> Seq<(FutureValueView, u64)> {
    match value.kind {
        FutureValueKindView::AsyncFn(v) => match v.state_value {
            Ok(state) => match state.awaitee {
                Some(awaitee) => seq![(*awaitee, state.state.discriminant_value)],
                None => Seq::empty(),
            },
            Err(_) => Seq::empty(),
        },
        FutureValueKindView::SelectValue(awaitees) => Seq::new(
            awaitees.len(),
            |i: int| (awaitees[i], i as u64),
        ),
        FutureValueKindView::JoinValue(awaitees) => Seq::new(
            awaitees.len(),
            |i: int| (awaitees[i], i as u64),
        ),
        FutureValueKindView::Unknown(_) => Seq::empty(),
    }
}

/// The mathematical values of futures that are referred to.
pub open spec fn awaitees_view(awaitees: Seq<(&FutureValue, u64)>) -> Seq<(FutureValueView, u64)> {
    awaitees.map_values(|a: (&FutureValue, u64)| (a.0@, a.1))
}

fn part(text: &str, stands_out: bool) -> (p: Part)
    ensures
        p.0@ == text@,
        p.1 == stands_out,
{
    (text.to_owned(), stands_out)
}

fn number(n: u64) -> (p: Part)
    ensures
        p.0@ == decimal(n as nat),
        p.1,
{
    let mut out: Vec<char> = Vec::new();
    push_decimal(&mut out, n);
    proof {
        assert(Seq::<char>::empty() + decimal(n as nat) == decimal(n as nat));
    }
    (string_of(&out), true)
}

fn state_parts(value: &AsyncFnValue, parts: &mut Vec<Part>)
    ensures
        parts_view(final(parts)@) == parts_view(old(parts)@) + state_words(value@),
{
    let ghost before = parts_view(parts@);
    match &value.state_value {
        Ok(state) => {
            parts.push((state.state.name.clone(), true));
            match &state.state.source {
                Some(source) => {
                    parts.push(part(" (", false));
                    parts.push((source.to_string(), true));
                    parts.push(part(")", false));
                },
                None => {},
            }
            if state.awaitee.is_some() {
                parts.push(part(" on:", false));
            }
        },
        Err(discriminant) => {
            let mut out: Vec<char> = Vec::new();
            push_text(&mut out, "<invalid discriminant ");
            push_decimal(&mut out, *discriminant);
            push_text(&mut out, ">");
            parts.push((string_of(&out), true));
        },
    }
    proof {
        assert(parts_view(parts@) =~= before + state_words(value@));
    }
}

fn count(awaitees: &Vec<FutureValue>) -> (n: u64)
    ensures
        n == awaitees.len(),
{
    awaitees.len() as u64
}

impl FutureValue {
    /// The line that says what the future is and what it waits for, in
    /// parts of which some are to stand out.
    pub fn headline(&self) -> (parts: Vec<Part>)
        ensures
            parts_view(parts@) == headline_of(self@),
    {
        let mut parts: Vec<Part> = Vec::new();
        match &self.kind {
            FutureValueKind::AsyncFn(value) => {
                parts.push(part("Function ", false));
                parts.push((self.ty.to_string(), true));
                parts.push(part(" is waiting at ", false));
                proof {
                    assert(parts_view(parts@) =~= seq![
                        ("Function "@, false),
                        (self@.ty.text(), true),
                        (" is waiting at "@, false),
                    ]);
                }
                state_parts(value, &mut parts);
            },
            FutureValueKind::SelectValue(value) => {
                parts.push(part("Select waiting on one of ", false));
                parts.push(number(count(&value.awaitees)));
                parts.push(part(" futures:", false));
                proof {
                    assert(values_view(value.awaitees@).len() == value.awaitees@.len());
                    assert(parts_view(parts@) =~= headline_of(self@));
                }
            },
            FutureValueKind::JoinValue(value) => {
                parts.push(part("Join waiting on ", false));
                parts.push(number(count(&value.awaitees)));
                parts.push(part(" futures:", false));
                proof {
                    assert(values_view(value.awaitees@).len() == value.awaitees@.len());
                    assert(parts_view(parts@) =~= headline_of(self@));
                }
            },
            FutureValueKind::Unknown(_) => {
                parts.push((self.ty.to_string(), false));
                proof {
                    assert(parts_view(parts@) =~= headline_of(self@));
                }
            },
        }
        parts
    }

    /// The futures that the future waits for, each with the number by
    /// which it is told from the others.
    pub fn awaitees(&self) -> (found: Vec<(&FutureValue, u64)>)
        ensures
            awaitees_view(found@) == awaitees_of(self@),
    {
        let mut found: Vec<(&FutureValue, u64)> = Vec::new();
        match &self.kind {
            FutureValueKind::AsyncFn(value) => {
                match &value.state_value {
                    Ok(state) => match &state.awaitee {
                        Some(awaitee) => {
                            found.push((&**awaitee, state.state.discriminant_value));
                            proof {
                                assert(self@.kind == FutureValueKindView::AsyncFn(value@));
                                assert(value@.state_value == Ok::<_, u64>(state@));
                                assert(state@.awaitee == Some(Box::new(awaitee@)));
                                assert(awaitees_view(found@)[0] == (
                                    awaitee@,
                                    state@.state.discriminant_value,
                                ));
                            }
                        },
                        None => {},
                    },
                    Err(_) => {},
                }
                proof {
                    assert(awaitees_view(found@) =~= awaitees_of(self@));
                }
            },
            FutureValueKind::SelectValue(value) => {
                push_all(&value.awaitees, &mut found);
                proof {
                    assert(awaitees_view(found@) =~= awaitees_of(self@));
                }
            },
            FutureValueKind::JoinValue(value) => {
                push_all(&value.awaitees, &mut found);
                proof {
                    assert(awaitees_view(found@) =~= awaitees_of(self@));
                }
            },
            FutureValueKind::Unknown(_) => {
                proof {
                    assert(awaitees_view(found@) =~= awaitees_of(self@));
                }
            },
        }
        found
    }
}

fn push_all<'a>(awaitees: &'a Vec<FutureValue>, found: &mut Vec<(&'a FutureValue, u64)>)
    requires
        old(found).len() == 0,
    ensures
        final(found).len() == awaitees.len(),
        forall|i: int|
            0 <= i < awaitees.len() ==> (#[trigger] final(found)@[i]).0@ == awaitees@[i]@
                && final(found)@[i].1 == i,
{
    let mut i: usize = 0;
    while i < awaitees.len()
        invariant
            i <= awaitees.len(),
            found.len() == i,
            forall|k: int|
                0 <= k < i ==> (#[trigger] found@[k]).0@ == awaitees@[k]@ && found@[k].1 == k,
        decreases awaitees.len() - i,
    {
        found.push((&awaitees[i], i as u64));
        i += 1;
    }
}

} // verus!
