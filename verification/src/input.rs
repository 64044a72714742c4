//! Input values for a run: provided values, answers to prompts, and which values are secret.
use vstd::prelude::*;
use crate::interpolate::{lookup, lookup_index, pairs_view};
use crate::manifest::{InputSpec, SpecInput, inputs_view};
use crate::text::{cat, chars_of, string_of};

verus! {

/// The nonempty values of the secret inputs, in the order of the inputs.
pub open spec fn secrets_spec(ins: Seq<SpecInput>, vals: Seq<(Seq<char>, Seq<char>)>) -> Seq<Seq<char>>
    decreases ins.len(),
{
    if ins.len() == 0 {
        Seq::empty()
    } else {
        let rest = secrets_spec(ins.drop_last(), vals);
        let i = ins.last();
        if i.secret && lookup(vals, i.name) is Some && lookup(vals, i.name).unwrap().len() > 0 {
            rest.push(lookup(vals, i.name).unwrap())
        } else {
            rest
        }
    }
}

/// The nonempty values of the secret inputs, which logs must not show.
pub fn secret_values(inputs: &[InputSpec], values: &[(String, String)]) -> (r: Vec<String>)
    ensures
        r@.map_values(|s: String| s@) == secrets_spec(inputs_view(inputs@), pairs_view(values@)),
{
    let ghost ins = inputs_view(inputs@);
    let ghost vals = pairs_view(values@);
    let mut out: Vec<String> = Vec::new();
    let mut i: usize = 0;
    while i < inputs.len()
        invariant
            0 <= i <= inputs@.len(),
            ins == inputs_view(inputs@),
            vals == pairs_view(values@),
            out@.map_values(|s: String| s@) == secrets_spec(ins.take(i as int), vals),
        decreases inputs@.len() - i,
    {
        proof {
            assert(ins.take(i + 1).drop_last() =~= ins.take(i as int));
            assert(ins.take(i + 1).last() == inputs@[i as int]@);
        }
        if inputs[i].secret {
            match lookup_index(values, &chars_of(inputs[i].name.as_str())) {
                Some(k) => {
                    if !values[k].1.as_str().is_empty() {
                        let ghost before = out@.map_values(|s: String| s@);
                        out.push(values[k].1.as_str().to_owned());
                        proof {
                            assert(out@.map_values(|s: String| s@) =~= before.push(values@[k as int].1@));
                        }
                    }
                },
                None => {},
            }
        }
        i = i + 1;
    }
    proof {
        assert(ins.take(inputs@.len() as int) =~= ins);
    }
    out
}

/// The value an answer gives an input: an empty answer takes the default (or stays empty); a
/// required input left empty gets no value, and is asked again.
pub open spec fn answer_value(input: SpecInput, answer: Seq<char>) -> Option<Seq<char>> {
    let v = if answer.len() == 0 {
        match input.default {
            Some(d) => d,
            None => Seq::empty(),
        }
    } else {
        answer
    };
    if input.required && v.len() == 0 {
        None
    } else {
        Some(v)
    }
}

/// The value an answer gives an input, or `None` when a required input must be asked again.
pub fn resolve_answer(input: &InputSpec, answer: &str) -> (r: Option<String>)
    ensures
        match r {
            Some(v) => answer_value(input@, answer@) == Some(v@),
            None => answer_value(input@, answer@) is None,
        },
{
    let v: String = if answer.is_empty() {
        match &input.default {
            Some(d) => d.as_str().to_owned(),
            None => String::new(),
        }
    } else {
        answer.to_owned()
    };
    if input.required && v.as_str().is_empty() {
        None
    } else {
        Some(v)
    }
}

/// The prompt shown for an input: `prompt [default]: `, or `prompt: ` without a default.
pub open spec fn prompt_spec(input: SpecInput) -> Seq<char> {
    match input.default {
        Some(d) => input.prompt + " ["@ + d + "]: "@,
        None => input.prompt + ": "@,
    }
}

/// The prompt shown for an input.
pub fn prompt_text(input: &InputSpec) -> (r: String)
    ensures
        r@ == prompt_spec(input@),
{
    match &input.default {
        Some(d) => {
            let a = cat(input.prompt.as_str(), " [");
            let b = cat(a.as_str(), d.as_str());
            cat(b.as_str(), "]: ")
        },
        None => cat(input.prompt.as_str(), ": "),
    }
}

/// A line read from the terminal without the line end: trailing `\r` and `\n` removed.
pub open spec fn line_end_pred() -> spec_fn(char) -> bool {
    |c: char| c == '\r' || c == '\n'
}

/// A line read from the terminal without its line end.
pub fn strip_line_end(line: &str) -> (r: String)
    ensures
        r@ == crate::text::trim_end_by(line@, line_end_pred()),
{
    let v = chars_of(line);
    let ghost pred = line_end_pred();
    let mut b: usize = v.len();
    while b > 0 && (v[b - 1] == '\r' || v[b - 1] == '\n')
        invariant
            pred == line_end_pred(),
            b <= v@.len(),
            v@ == line@,
            crate::text::skip_back_while(v@, pred, v@.len() as int) == crate::text::skip_back_while(
                v@,
                pred,
                b as int,
            ),
        decreases b,
    {
        b = b - 1;
    }
    string_of(&crate::text::slice_copy(&v, 0, b))
}

/// What collecting the input values needs next.
#[derive(Debug, Clone, Copy, PartialEq, Eq)]
pub enum InputRequest {
    /// Ask the user for the input at this position.
    Ask(usize),
    /// Every input has a value.
    Finished,
}

/// The values collected for the inputs before `pos`: one pair per input, in order; a provided
/// value is taken as it is; any other value is what an answer gave, nonempty where the input
/// is required.
pub open spec fn collected(
    ins: Seq<SpecInput>,
    provided: Seq<(Seq<char>, Seq<char>)>,
    vals: Seq<(Seq<char>, Seq<char>)>,
    pos: nat,
) -> bool {
    &&& pos <= ins.len()
    &&& vals.len() == pos
    &&& forall|j: int|
        0 <= j < pos ==> {
            &&& (#[trigger] vals[j]).0 == ins[j].name
            &&& (lookup(provided, ins[j].name) matches Some(p) ==> vals[j].1 == p)
            &&& (lookup(provided, ins[j].name) is None && ins[j].required ==> vals[j].1.len() > 0)
        }
}

/// Collecting the values of a manifest's inputs, one input after the other.
pub struct InputCollector {
    pos: usize,
    values: Vec<(String, String)>,
}

impl InputCollector {
    /// The position of the next input without a value.
    pub closed spec fn position(&self) -> nat {
        self.pos as nat
    }

    /// The values collected so far.
    pub closed spec fn collected_values(&self) -> Seq<(Seq<char>, Seq<char>)> {
        pairs_view(self.values@)
    }

    /// A collector that has no value yet.
    pub fn new() -> (r: InputCollector)
        ensures
            r.position() == 0,
            r.collected_values() == Seq::<(Seq<char>, Seq<char>)>::empty(),
    {
        let r = InputCollector { pos: 0, values: Vec::new() };
        proof {
            assert(pairs_view(r.values@) =~= Seq::<(Seq<char>, Seq<char>)>::empty());
        }
        r
    }

    /// Takes the provided values of the next inputs, up to the first input without one, which
    /// is to be asked for; or reports that every input has a value.
    #[verifier::loop_isolation(false)]
    pub fn next_request(&mut self, inputs: &[InputSpec], provided: &[(String, String)]) -> (r: InputRequest)
        requires
            collected(inputs_view(inputs@), pairs_view(provided@), old(self).collected_values(), old(self).position()),
        ensures
            collected(inputs_view(inputs@), pairs_view(provided@), final(self).collected_values(), final(self).position()),
            old(self).position() <= final(self).position(),
            final(self).collected_values().take(old(self).position() as int) == old(self).collected_values(),
            forall|j: int| old(self).position() <= j < final(self).position() ==> lookup(pairs_view(provided@), inputs@[j].name@) is Some,
            match r {
                InputRequest::Ask(i) => i == final(self).position() && i < inputs@.len()
                    && lookup(pairs_view(provided@), inputs@[i as int].name@) is None,
                InputRequest::Finished => final(self).position() == inputs@.len(),
            },
    {
        let ghost ins = inputs_view(inputs@);
        let ghost pv = pairs_view(provided@);
        let ghost start = self.pos;
        let ghost old_vals = pairs_view(self.values@);
        proof {
            assert(pairs_view(self.values@).take(start as int) =~= old_vals);
        }
        while self.pos < inputs.len()
            invariant
                ins == inputs_view(inputs@),
                pv == pairs_view(provided@),
                collected(ins, pv, pairs_view(self.values@), self.pos as nat),
                start <= self.pos,
                pairs_view(self.values@).take(start as int) == old_vals,
                forall|j: int| start <= j < self.pos ==> lookup(pv, inputs@[j].name@) is Some,
            decreases inputs@.len() - self.pos,
        {
            let p = self.pos;
            assert(ins[p as int] == inputs@[p as int]@);
            match lookup_index(provided, &chars_of(inputs[p].name.as_str())) {
                Some(k) => {
                    let ghost before = pairs_view(self.values@);
                    let pair = (
                        inputs[p].name.as_str().to_owned(),
                        provided[k].1.as_str().to_owned(),
                    );
                    self.values.push(pair);
                    self.pos = p + 1;
                    proof {
                        assert(pairs_view(self.values@) =~= before.push(
                            (inputs@[p as int].name@, provided@[k as int].1@),
                        ));
                        assert(pairs_view(self.values@).take(start as int) =~= before.take(start as int));
                    }
                },
                None => {
                    return InputRequest::Ask(p);
                },
            }
        }
        InputRequest::Finished
    }

    /// Gives the input at the current position the value of an answer. Returns `false`, and
    /// changes nothing, when the input is required and the answer leaves it empty.
    pub fn answer(&mut self, inputs: &[InputSpec], provided: &[(String, String)], text: &str) -> (r: bool)
        requires
            collected(inputs_view(inputs@), pairs_view(provided@), old(self).collected_values(), old(self).position()),
            old(self).position() < inputs@.len(),
            lookup(pairs_view(provided@), inputs@[old(self).position() as int].name@) is None,
        ensures
            collected(inputs_view(inputs@), pairs_view(provided@), final(self).collected_values(), final(self).position()),
            match answer_value(inputs@[old(self).position() as int]@, text@) {
                Some(v) => r && final(self).position() == old(self).position() + 1
                    && final(self).collected_values() == old(self).collected_values().push(
                    (inputs@[old(self).position() as int].name@, v),
                ),
                None => !r && final(self).position() == old(self).position()
                    && final(self).collected_values() == old(self).collected_values(),
            },
    {
        let p = self.pos;
        let ghost ins = inputs_view(inputs@);
        assert(ins[p as int] == inputs@[p as int]@);
        match resolve_answer(&inputs[p], text) {
            Some(v) => {
                let ghost before = pairs_view(self.values@);
                self.values.push((inputs[p].name.as_str().to_owned(), v));
                self.pos = p + 1;
                proof {
                    assert(pairs_view(self.values@) =~= before.push((inputs@[p as int].name@, self.values@[p as int].1@)));
                }
                true
            },
            None => false,
        }
    }

    /// The values collected, as pairs of input name and value.
    pub fn values(&self) -> (r: &Vec<(String, String)>)
        ensures
            pairs_view(r@) == self.collected_values(),
    {
        &self.values
    }
}

/// The first provided name that is no input's name.
pub open spec fn unknown_at(ins: Seq<SpecInput>, provided: Seq<(Seq<char>, Seq<char>)>, k: int) -> bool {
    forall|j: int| 0 <= j < ins.len() ==> #[trigger] ins[j].name != provided[k].0
}

/// The first provided value whose name is no input's name: such a value is refused.
pub fn unknown_provided(inputs: &[InputSpec], provided: &[(String, String)]) -> (r: Option<String>)
    ensures
        match r {
            Some(name) => exists|k: int|
                0 <= k < provided@.len() && unknown_at(inputs_view(inputs@), pairs_view(provided@), k)
                    && provided@[k].0@ == name@ && forall|m: int|
                    0 <= m < k ==> !unknown_at(inputs_view(inputs@), pairs_view(provided@), m),
            None => forall|k: int|
                0 <= k < provided@.len() ==> !unknown_at(inputs_view(inputs@), pairs_view(provided@), k),
        },
{
    let ghost ins = inputs_view(inputs@);
    let ghost pv = pairs_view(provided@);
    let mut k: usize = 0;
    while k < provided.len()
        invariant
            0 <= k <= provided@.len(),
            ins == inputs_view(inputs@),
            pv == pairs_view(provided@),
            forall|m: int| 0 <= m < k ==> !unknown_at(ins, pv, m),
        decreases provided@.len() - k,
    {
        let key = chars_of(provided[k].0.as_str());
        let mut found = false;
        let mut j: usize = 0;
        while j < inputs.len()
            invariant
                0 <= j <= inputs@.len(),
                0 <= k < provided@.len(),
                ins == inputs_view(inputs@),
                pv == pairs_view(provided@),
                key@ == pv[k as int].0,
                found ==> !unknown_at(ins, pv, k as int),
                !found ==> forall|m: int| 0 <= m < j ==> #[trigger] ins[m].name != pv[k as int].0,
            decreases inputs@.len() - j,
        {
            assert(ins[j as int] == inputs@[j as int]@);
            if crate::text::chars_eq(&chars_of(inputs[j].name.as_str()), &key) {
                assert(ins[j as int].name == pv[k as int].0);
                found = true;
            }
            j = j + 1;
        }
        if !found {
            proof {
                assert(unknown_at(ins, pv, k as int));
            }
            return Some(string_of(&key));
        }
        k = k + 1;
    }
    None
}

} // verus!
