//! The tag-system data model: symbols, production rules and validated
//! programs over a FIFO queue of symbols.

use vstd::prelude::*;

verus! {

/// A symbol is an opaque name; equality is by value.
pub type Symbol = String;

/// An ordered sequence of symbols, as appended to the queue by one rule.
pub type Series = Vec<Symbol>;

/// One production rule body. The start symbol that keys the rule is stored
/// beside it in `Rules`.
#[derive(Debug, Clone, PartialEq, Eq)]
pub enum RuleStyle {
    /// One fixed appendant.
    Pure(Series),
    /// Two appendants; an external input bit picks the second when it is set.
    Input(Series, Series),
    /// One appendant plus an output bit emitted whenever the rule fires.
    Output(Series, bool),
}

/// The rules of a program as an ordered association from start symbol to
/// rule body. Keys are unique; the order is the declaration order and is the
/// iteration order of the assembler and of the textual rendering.
pub type Rules = Vec<(Symbol, RuleStyle)>;

/// The mathematical shape of one rule body: appendants as sequences of
/// symbol names.
#[verifier::ext_equal]
pub ghost enum RuleModel {
    Pure(Seq<Seq<char>>),
    Input(Seq<Seq<char>>, Seq<Seq<char>>),
    Output(Seq<Seq<char>>, bool),
}

/// The name sequence of every symbol of a series, in order.
pub open spec fn series_model(s: Seq<Symbol>) -> Seq<Seq<char>> {
    s.map(|i: int, x: Symbol| x@)
}

impl View for RuleStyle {
    type V = RuleModel;

    open spec fn view(&self) -> RuleModel {
        match self {
            RuleStyle::Pure(app) => RuleModel::Pure(series_model(app@)),
            RuleStyle::Input(app0, app1) => RuleModel::Input(
                series_model(app0@),
                series_model(app1@),
            ),
            RuleStyle::Output(app, bit) => RuleModel::Output(series_model(app@), *bit),
        }
    }
}

/// The rule association as pairs of key name and rule body model.
pub open spec fn rules_model(rules: Seq<(Symbol, RuleStyle)>) -> Seq<(Seq<char>, RuleModel)> {
    rules.map(|i: int, p: (Symbol, RuleStyle)| (p.0@, p.1@))
}

/// Whether every start symbol occurs at most once among the rule keys.
pub open spec fn unique_keys(rules: Seq<(Seq<char>, RuleModel)>) -> bool {
    forall|i: int, j: int|
        0 <= i < j < rules.len() ==> rules[i].0 != rules[j].0
}

/// The shape of a rule, without its payload.
#[derive(Debug, Clone, Copy, PartialEq, Eq, Structural)]
pub enum RuleStyleReduced {
    Pure,
    Input,
    Output,
}

/// Step-by-step construction of one rule body.
pub struct AppendantBuilder {
    pub style: RuleStyleReduced,
    pub output_bit: bool,
    /// Used by both the `Output` and `Pure` styles.
    pub appendant: Series,
    pub appendant0: Series,
    pub appendant1: Series,
}

impl AppendantBuilder {
    fn minimal_struct(style: RuleStyleReduced) -> (r: AppendantBuilder)
        ensures
            r.style == style,
            !r.output_bit,
            r.appendant@ == Seq::<Symbol>::empty(),
            r.appendant0@ == Seq::<Symbol>::empty(),
            r.appendant1@ == Seq::<Symbol>::empty(),
    {
        AppendantBuilder {
            style,
            output_bit: false,
            appendant: Vec::new(),
            appendant0: Vec::new(),
            appendant1: Vec::new(),
        }
    }

    /// Starts an input-style rule.
    pub fn input_rule() -> (r: AppendantBuilder)
        ensures
            r.style == RuleStyleReduced::Input,
            !r.output_bit,
            r.appendant@ == Seq::<Symbol>::empty(),
            r.appendant0@ == Seq::<Symbol>::empty(),
            r.appendant1@ == Seq::<Symbol>::empty(),
    {
        Self::minimal_struct(RuleStyleReduced::Input)
    }

    /// Starts an output-style rule.
    pub fn output_rule() -> (r: AppendantBuilder)
        ensures
            r.style == RuleStyleReduced::Output,
            !r.output_bit,
            r.appendant@ == Seq::<Symbol>::empty(),
            r.appendant0@ == Seq::<Symbol>::empty(),
            r.appendant1@ == Seq::<Symbol>::empty(),
    {
        Self::minimal_struct(RuleStyleReduced::Output)
    }

    /// Starts a pure rule.
    pub fn pure_rule() -> (r: AppendantBuilder)
        ensures
            r.style == RuleStyleReduced::Pure,
            !r.output_bit,
            r.appendant@ == Seq::<Symbol>::empty(),
            r.appendant0@ == Seq::<Symbol>::empty(),
            r.appendant1@ == Seq::<Symbol>::empty(),
    {
        Self::minimal_struct(RuleStyleReduced::Pure)
    }

    /// Sets the bit an output-style rule emits.
    pub fn with_output(self, bit: bool) -> (r: Self)
        ensures
            r == (AppendantBuilder { output_bit: bit, ..self }),
    {
        let mut this = self;
        this.output_bit = bit;
        this
    }

    /// Sets the appendant of a pure or output-style rule.
    pub fn with_appendant(self, appendant: Series) -> (r: Self)
        ensures
            r == (AppendantBuilder { appendant, ..self }),
    {
        let mut this = self;
        this.appendant = appendant;
        this
    }

    /// Sets the appendant an input-style rule selects on a clear input bit.
    pub fn with_false_appendant(self, appendant0: Series) -> (r: Self)
        ensures
            r == (AppendantBuilder { appendant0, ..self }),
    {
        let mut this = self;
        this.appendant0 = appendant0;
        this
    }

    /// Sets the appendant an input-style rule selects on a set input bit.
    pub fn with_true_appendant(self, appendant1: Series) -> (r: Self)
        ensures
            r == (AppendantBuilder { appendant1, ..self }),
    {
        let mut this = self;
        this.appendant1 = appendant1;
        this
    }

    /// Produces the finished rule body of the chosen style.
    pub fn finalize(self) -> (r: RuleStyle)
        ensures
            self.style == RuleStyleReduced::Pure ==> r@ == RuleModel::Pure(
                series_model(self.appendant@),
            ),
            self.style == RuleStyleReduced::Input ==> r@ == RuleModel::Input(
                series_model(self.appendant0@),
                series_model(self.appendant1@),
            ),
            self.style == RuleStyleReduced::Output ==> r@ == RuleModel::Output(
                series_model(self.appendant@),
                self.output_bit,
            ),
    {
        match self.style {
            RuleStyleReduced::Pure => RuleStyle::Pure(self.appendant),
            RuleStyleReduced::Input => RuleStyle::Input(self.appendant0, self.appendant1),
            RuleStyleReduced::Output => RuleStyle::Output(self.appendant, self.output_bit),
        }
    }
}

/// The style tag of a rule record in the binary format.
#[derive(Debug, Clone, Copy, PartialEq, Eq, Structural)]
pub enum BinRuleStyle {
    Pure,
    Input,
    Output,
}

impl BinRuleStyle {
    /// The byte value that encodes this style in a rule record.
    pub open spec fn code_spec(self) -> u8 {
        match self {
            BinRuleStyle::Output => 0,
            BinRuleStyle::Input => 1,
            BinRuleStyle::Pure => 2,
        }
    }

    /// The byte value that encodes this style in a rule record.
    pub fn code(self) -> (r: u8)
        ensures
            r == self.code_spec(),
    {
        match self {
            BinRuleStyle::Output => 0,
            BinRuleStyle::Input => 1,
            BinRuleStyle::Pure => 2,
        }
    }
}

/// Validation failures of the tag-system model and assembler.
#[derive(Debug, Clone, PartialEq, Eq)]
pub enum TagErr {
    /// The deletion number is below two.
    InvalidDeletionNumber { deletion_number: u32 },
    /// The initial queue is shorter than the deletion number.
    InvalidQueueLength { queue_length: u32 },
    /// Two rules share a start symbol.
    DuplicateStartSymbol { start_symbol: Symbol },
    /// The symbol space does not fit the widest supported symbol encoding.
    TooManySymbols { boundary: usize },
    /// No symbol occurs anywhere in the program.
    EmptyProgram,
}

/// A validated tag-system program.
#[derive(Debug)]
pub struct Program {
    pub deletion_number: u32,
    pub rules: Rules,
    pub queue: Series,
}

/// The mathematical content of a program.
#[verifier::ext_equal]
pub ghost struct ProgramModel {
    pub deletion_number: u32,
    pub rules: Seq<(Seq<char>, RuleModel)>,
    pub queue: Seq<Seq<char>>,
}

impl View for Program {
    type V = ProgramModel;

    open spec fn view(&self) -> ProgramModel {
        ProgramModel {
            deletion_number: self.deletion_number,
            rules: rules_model(self.rules@),
            queue: series_model(self.queue@),
        }
    }
}

impl Program {
    /// The structural invariant every constructed program satisfies.
    pub open spec fn wf(self) -> bool {
        &&& self.deletion_number >= 2
        &&& self@.queue.len() >= self.deletion_number
        &&& unique_keys(self@.rules)
    }

    /// Whether `j` indexes the first rule whose key repeats an earlier key.
    pub open spec fn is_first_dup(rules: Seq<(Seq<char>, RuleModel)>, j: int) -> bool {
        &&& 0 <= j < rules.len()
        &&& exists|i: int| 0 <= i < j && #[trigger] rules[i].0 == rules[j].0
        &&& forall|j2: int, i2: int|
            0 <= i2 < j2 < j ==> #[trigger] rules[i2].0 != #[trigger] rules[j2].0
    }

    /// Builds a program after checking the structural invariants: the
    /// deletion number must be at least two, the queue at least that long,
    /// and the rule keys unique.
    pub fn from_components(deletion_number: u32, rules: Rules, queue: Series) -> (r: Result<
        Program,
        TagErr,
    >)
        requires
            queue.len() <= u32::MAX,
        ensures
            deletion_number < 2 ==> (r matches Err(TagErr::InvalidDeletionNumber {
                deletion_number: d,
            }) && d == deletion_number),
            deletion_number >= 2 && queue@.len() < deletion_number ==> (r matches Err(
                TagErr::InvalidQueueLength { queue_length: l },
            ) && l == queue@.len()),
            deletion_number >= 2 && queue@.len() >= deletion_number && !unique_keys(
                rules_model(rules@),
            ) ==> (r matches Err(TagErr::DuplicateStartSymbol { start_symbol: s }) && exists|j: int|
                #[trigger] Self::is_first_dup(rules_model(rules@), j) && s@ == rules_model(
                    rules@,
                )[j].0),
            r matches Ok(p) ==> {
                &&& deletion_number >= 2
                &&& queue@.len() >= deletion_number
                &&& unique_keys(rules_model(rules@))
                &&& p@.deletion_number == deletion_number
                &&& p@.rules == rules_model(rules@)
                &&& p@.queue == series_model(queue@)
                &&& p.wf()
            },
            r is Ok <==> (deletion_number >= 2 && queue@.len() >= deletion_number && unique_keys(
                rules_model(rules@),
            )),
    {
        if deletion_number < 2 {
            return Err(TagErr::InvalidDeletionNumber { deletion_number });
        }
        if (queue.len() as u32) < deletion_number {
            return Err(TagErr::InvalidQueueLength { queue_length: queue.len() as u32 });
        }
        match Self::find_duplicate_key(&rules) {
            Some(j) => {
                let dup = rules[j].0.clone();
                Err(TagErr::DuplicateStartSymbol { start_symbol: dup })
            },
            None => Ok(Program { deletion_number, rules, queue }),
        }
    }

    /// Linear scan for the first rule key that repeats an earlier one.
    fn find_duplicate_key(rules: &Rules) -> (r: Option<usize>)
        ensures
            match r {
                Some(j) => Self::is_first_dup(rules_model(rules@), j as int),
                None => unique_keys(rules_model(rules@)),
            },
            r is None <==> unique_keys(rules_model(rules@)),
    {
        let ghost model = rules_model(rules@);
        let n = rules.len();
        let mut j: usize = 0;
        while j < n
            invariant
                n == rules@.len(),
                j <= n,
                model == rules_model(rules@),
                forall|j2: int, i2: int|
                    0 <= i2 < j2 < j ==> #[trigger] model[i2].0 != #[trigger] model[j2].0,
            decreases n - j,
        {
            let mut i: usize = 0;
            while i < j
                invariant
                    j < n,
                    n == rules@.len(),
                    i <= j,
                    model == rules_model(rules@),
                    forall|j2: int, i2: int|
                        0 <= i2 < j2 < j ==> #[trigger] model[i2].0 != #[trigger] model[j2].0,
                    forall|i2: int| 0 <= i2 < i ==> #[trigger] model[i2].0 != model[j as int].0,
                decreases j - i,
            {
                if rules[i].0 == rules[j].0 {
                    proof {
                        assert(model[i as int].0 == model[j as int].0);
                    }
                    return Some(j);
                }
                i += 1;
            }
            j += 1;
        }
        None
    }

    /// Renders the program as its canonical human-readable dump: the
    /// deletion number block, one line per rule in declaration order, and
    /// the queue block.
    pub fn render(&self) -> (r: String)
        ensures
            r@ == render_spec(self@),
    {
        let mut s: String = "deletion_number {\n    ".to_owned();
        let num = crate::text::fmt_usize(self.deletion_number as usize);
        s.append(num.as_str());
        s.append("\n}\n\n");
        s.append("rules {\n\n");

        let ghost rm = self@.rules;
        let nr = self.rules.len();
        let mut j: usize = 0;
        while j < nr
            invariant
                nr == self.rules@.len(),
                j <= nr,
                rm == self@.rules,
                s@ == render_header(self@) + render_rules_upto(rm, j as int),
            decreases nr - j,
        {
            s.append(self.rules[j].0.as_str());
            s.append(" -> ");
            match &self.rules[j].1 {
                RuleStyle::Pure(app) => {
                    append_series(&mut s, app);
                },
                RuleStyle::Input(app0, app1) => {
                    s.append("{ ");
                    append_series(&mut s, app0);
                    s.append(" ; ");
                    append_series(&mut s, app1);
                    s.append(" } ");
                },
                RuleStyle::Output(app, bit) => {
                    if *bit {
                        s.append("1");
                    } else {
                        s.append("0");
                    }
                    s.append(": ");
                    append_series(&mut s, app);
                },
            }
            s.append("\n");
            proof {
                assert(s@ =~= render_header(self@) + render_rules_upto(rm, j + 1));
            }
            j += 1;
        }

        s.append("\n}\n\n");
        s.append("queue {\n    ");
        append_series(&mut s, &self.queue);
        s.append("\n}\n");
        proof {
            assert(s@ =~= render_spec(self@));
        }
        s
    }

    /// The validated deletion number.
    pub fn deletion_number(&self) -> (r: u32)
        ensures
            r == self@.deletion_number,
    {
        self.deletion_number
    }

    /// The rule association, in declaration order.
    pub fn rules(&self) -> (r: &Rules)
        ensures
            rules_model(r@) == self@.rules,
    {
        &self.rules
    }

    /// The initial queue, front first.
    pub fn queue(&self) -> (r: &Series)
        ensures
            series_model(r@) == self@.queue,
    {
        &self.queue
    }
}

/// The first `k` symbols of a series rendered in order, each with a
/// trailing space.
pub open spec fn render_series_upto(a: Seq<Seq<char>>, k: int) -> Seq<char>
    decreases k,
{
    if k <= 0 {
        Seq::empty()
    } else {
        render_series_upto(a, k - 1) + a[k - 1] + " "@
    }
}

/// One rule line: the start symbol, an arrow, and the body in its
/// shape-specific syntax.
pub open spec fn render_rule(key: Seq<char>, r: RuleModel) -> Seq<char> {
    key + " -> "@ + (match r {
        RuleModel::Pure(app) => render_series_upto(app, app.len() as int),
        RuleModel::Input(app0, app1) => "{ "@ + render_series_upto(app0, app0.len() as int)
            + " ; "@ + render_series_upto(app1, app1.len() as int) + " } "@,
        RuleModel::Output(app, bit) => (if bit {
            "1"@
        } else {
            "0"@
        }) + ": "@ + render_series_upto(app, app.len() as int),
    }) + "\n"@
}

/// The first `j` rule lines, in declaration order.
pub open spec fn render_rules_upto(rules: Seq<(Seq<char>, RuleModel)>, j: int) -> Seq<char>
    decreases j,
{
    if j <= 0 {
        Seq::empty()
    } else {
        render_rules_upto(rules, j - 1) + render_rule(rules[j - 1].0, rules[j - 1].1)
    }
}

/// The dump up to and including the opening of the rules block.
pub open spec fn render_header(p: ProgramModel) -> Seq<char> {
    "deletion_number {\n    "@ + crate::text::dec_spec(p.deletion_number as nat) + "\n}\n\n"@
        + "rules {\n\n"@
}

/// The whole canonical dump of a program.
pub open spec fn render_spec(p: ProgramModel) -> Seq<char> {
    render_header(p) + render_rules_upto(p.rules, p.rules.len() as int) + "\n}\n\n"@
        + "queue {\n    "@ + render_series_upto(p.queue, p.queue.len() as int) + "\n}\n"@
}

/// Appends every symbol of a series, each with a trailing space.
fn append_series(s: &mut String, a: &Series)
    ensures
        final(s)@ == old(s)@ + render_series_upto(series_model(a@), a@.len() as int),
{
    let ghost base = old(s)@;
    let ghost am = series_model(a@);
    let n = a.len();
    let mut k: usize = 0;
    proof {
        assert(s@ =~= base + render_series_upto(am, 0));
    }
    while k < n
        invariant
            n == a@.len(),
            k <= n,
            am == series_model(a@),
            s@ == base + render_series_upto(am, k as int),
        decreases n - k,
    {
        s.append(a[k].as_str());
        s.append(" ");
        proof {
            assert(s@ =~= base + render_series_upto(am, k + 1));
        }
        k += 1;
    }
}

} // verus!
