//! The tool registry: tools keyed by name, kept in name order, each with
//! its description, its schema documents and a handler of the caller's type.
use vstd::prelude::*;
use crate::text::{chars_of, string_of};

verus! {

/// Order of tool names: by character code, a proper prefix first.
pub open spec fn name_lt(a: Seq<char>, b: Seq<char>) -> bool
    decreases a.len(),
{
    if a.len() == 0 {
        b.len() > 0
    } else if b.len() == 0 {
        false
    } else if a[0] != b[0] {
        a[0] < b[0]
    } else {
        name_lt(a.drop_first(), b.drop_first())
    }
}

proof fn lemma_name_lt_irreflexive(a: Seq<char>)
    ensures
        !name_lt(a, a),
    decreases a.len(),
{
    if a.len() > 0 {
        lemma_name_lt_irreflexive(a.drop_first());
    }
}

proof fn lemma_name_lt_transitive(a: Seq<char>, b: Seq<char>, c: Seq<char>)
    requires
        name_lt(a, b),
        name_lt(b, c),
    ensures
        name_lt(a, c),
    decreases a.len(),
{
    if a.len() > 0 && b.len() > 0 && c.len() > 0 && a[0] == b[0] && b[0] == c[0] {
        lemma_name_lt_transitive(a.drop_first(), b.drop_first(), c.drop_first());
    }
}

proof fn lemma_name_lt_total(a: Seq<char>, b: Seq<char>)
    requires
        a != b,
        !name_lt(a, b),
    ensures
        name_lt(b, a),
    decreases a.len(),
{
    if a.len() > 0 && b.len() > 0 {
        if a[0] == b[0] {
            if a.drop_first() == b.drop_first() {
                assert(a =~= seq![a[0]] + a.drop_first());
                assert(b =~= seq![b[0]] + b.drop_first());
            }
            lemma_name_lt_total(a.drop_first(), b.drop_first());
        } else {
        }
    } else if a.len() == 0 {
        assert(b.len() == 0);
        assert(a =~= b);
    }
}

/// Decides `name_lt(a, b)`.
fn names_less(a: &Vec<char>, b: &Vec<char>) -> (r: bool)
    ensures
        r == name_lt(a@, b@),
{
    let mut i: usize = 0;
    assert(a@.skip(0) =~= a@);
    assert(b@.skip(0) =~= b@);
    while i < a.len() && i < b.len()
        invariant
            i <= a.len(),
            i <= b.len(),
            a@.take(i as int) == b@.take(i as int),
            name_lt(a@, b@) == name_lt(a@.skip(i as int), b@.skip(i as int)),
        decreases a.len() - i,
    {
        if a[i] != b[i] {
            assert(a@.skip(i as int)[0] == a@[i as int]);
            assert(b@.skip(i as int)[0] == b@[i as int]);
            return a[i] < b[i];
        }
        assert(a@.skip(i as int).drop_first() =~= a@.skip(i + 1));
        assert(b@.skip(i as int).drop_first() =~= b@.skip(i + 1));
        assert(a@.take(i + 1) =~= a@.take(i as int).push(a@[i as int]));
        assert(b@.take(i + 1) =~= b@.take(i as int).push(b@[i as int]));
        i = i + 1;
    }
    i == a.len() && i < b.len()
}

/// What the registry shows of one tool.
pub struct ToolSchemaView {
    pub name: Seq<char>,
    pub description: Seq<char>,
    pub input: Seq<char>,
    pub output: Seq<char>,
}

/// One registered tool, with the schema documents of its input and output.
pub struct ToolCallSchemaData {
    pub name: String,
    pub description: String,
    pub input: String,
    pub output: String,
}

impl ToolCallSchemaData {
    pub open spec fn view(&self) -> ToolSchemaView {
        ToolSchemaView {
            name: self.name@,
            description: self.description@,
            input: self.input@,
            output: self.output@,
        }
    }

    fn duplicate(&self) -> (r: ToolCallSchemaData)
        ensures
            r.view() == self.view(),
    {
        ToolCallSchemaData {
            name: self.name.clone(),
            description: self.description.clone(),
            input: self.input.clone(),
            output: self.output.clone(),
        }
    }
}

/// Why a tool call produced no result.
pub enum ExecutionError {
    /// No tool is registered under the name.
    ToolNotFound(String),
    /// The arguments could not be decoded into the tool's input type.
    InvalidArguments(String),
    /// The tool's handler reported a failure.
    ToolFailed(String),
}

/// The text of a `ToolNotFound` error for `name`.
pub open spec fn not_found_message(name: Seq<char>) -> Seq<char> {
    "Tool call with name "@ + name + " is not found"@
}

impl ExecutionError {
    /// The text reported to the client for this error.
    pub fn message(&self) -> (r: String)
        ensures
            self is ToolNotFound ==> r@ == not_found_message(self->ToolNotFound_0@),
            self is InvalidArguments ==> r@ == self->InvalidArguments_0@,
            self is ToolFailed ==> r@ == self->ToolFailed_0@,
    {
        match self {
            ExecutionError::ToolNotFound(name) => {
                let mut r = String::from_str("Tool call with name ");
                r.append(name.as_str());
                r.append(" is not found");
                r
            },
            ExecutionError::InvalidArguments(m) => m.clone(),
            ExecutionError::ToolFailed(m) => m.clone(),
        }
    }
}

/// A registered tool and its handler.
pub struct ToolEntry<H> {
    pub schema: ToolCallSchemaData,
    pub handler: H,
}

/// Tools by name. Names are unique and kept in increasing `name_lt` order,
/// so that listing is deterministic.
pub struct McpToolCalls<H> {
    tool_calls: Vec<ToolEntry<H>>,
}

impl<H> McpToolCalls<H> {
    /// What the registry shows, in name order.
    pub closed spec fn view(&self) -> Seq<ToolSchemaView> {
        Seq::new(self.tool_calls@.len(), |i: int| self.tool_calls@[i].schema.view())
    }

    /// The handlers, in the same order as `view`.
    pub closed spec fn handlers(&self) -> Seq<H> {
        Seq::new(self.tool_calls@.len(), |i: int| self.tool_calls@[i].handler)
    }

    /// Names strictly increase along the registry.
    pub open spec fn well_formed(&self) -> bool {
        forall|i: int, j: int|
            0 <= i < j < self.view().len() ==> name_lt(
                #[trigger] self.view()[i].name,
                #[trigger] self.view()[j].name,
            )
    }

    /// An empty registry.
    pub fn new() -> (r: Self)
        ensures
            r.well_formed(),
            r.view() == Seq::<ToolSchemaView>::empty(),
    {
        let r = McpToolCalls { tool_calls: Vec::new() };
        assert(r.view() =~= Seq::<ToolSchemaView>::empty());
        r
    }

    /// Number of registered tools.
    pub fn len(&self) -> (r: usize)
        ensures
            r == self.view().len(),
    {
        self.tool_calls.len()
    }

    /// Registers `schema` with `handler` under `schema.name`, replacing a
    /// tool already registered under that name.
    pub fn add(&mut self, schema: ToolCallSchemaData, handler: H)
        requires
            old(self).well_formed(),
        ensures
            final(self).well_formed(),
            forall|t: ToolSchemaView|
                #[trigger] final(self).view().contains(t) <==> (t == schema.view() || (old(
                    self,
                ).view().contains(t) && t.name != schema.name@)),
            exists|p: int|
                0 <= p < final(self).view().len() && final(self).view()[p] == schema.view()
                    && final(self).handlers()[p] == handler,
    {
        let name = chars_of(schema.name.as_str());
        let mut p: usize = 0;
        let mut stop = false;
        let ghost v = self.view();
        while p < self.tool_calls.len() && !stop
            invariant
                p <= self.tool_calls.len(),
                stop ==> p < self.tool_calls.len() && !name_lt(v[p as int].name, name@),
                self.view() == v,
                name@ == schema.name@,
                forall|i: int| 0 <= i < p ==> name_lt(#[trigger] v[i].name, name@),
            decreases self.tool_calls.len() - p + (if stop { 0int } else { 1int }),
        {
            let other = chars_of(self.tool_calls[p].schema.name.as_str());
            assert(other@ == v[p as int].name);
            if !names_less(&other, &name) {
                stop = true;
            } else {
                p = p + 1;
            }
        }
        let ghost s = schema.view();
        if p < self.tool_calls.len() {
            let other = chars_of(self.tool_calls[p].schema.name.as_str());
            if other.len() == name.len() && !names_less(&name, &other) {
                // equal names: no name is below the other
                proof {
                    if other@ != name@ {
                        lemma_name_lt_total(other@, name@);
                    }
                }
                let ghost before = self.view();
                self.tool_calls.set(p, ToolEntry { schema, handler });
                proof {
                    assert(self.view() =~= before.update(p as int, s));
                    assert(self.handlers()[p as int] == handler);
                    assert(self.view()[p as int] == s);
                    assert forall|t: ToolSchemaView|
                        #[trigger] self.view().contains(t) <==> (t == s || (before.contains(t)
                            && t.name != s.name)) by {
                        if self.view().contains(t) {
                            let k = choose|k: int| 0 <= k < self.view().len() && self.view()[k] == t;
                            if k != p {
                                assert(before[k] == t);
                                if k < p {
                                    assert(name_lt(before[k].name, before[p as int].name));
                                } else {
                                    assert(name_lt(before[p as int].name, before[k].name));
                                }
                                lemma_name_lt_irreflexive(t.name);
                            }
                        }
                        if t == s {
                            assert(self.view()[p as int] == t);
                        } else if before.contains(t) && t.name != s.name {
                            let k = choose|k: int| 0 <= k < before.len() && before[k] == t;
                            assert(k != p);
                            assert(self.view()[k] == t);
                        }
                    }
                    assert forall|i: int, j: int|
                        0 <= i < j < self.view().len() implies name_lt(
                        #[trigger] self.view()[i].name,
                        #[trigger] self.view()[j].name,
                    ) by {
                        assert(self.view()[i].name == before[i].name);
                        assert(self.view()[j].name == before[j].name);
                    }
                }
                return;
            }
            proof {
                if other@ == name@ {
                    lemma_name_lt_irreflexive(name@);
                }
                lemma_name_lt_total(other@, name@);
                assert(name_lt(name@, v[p as int].name));
            }
        }
        let ghost before = self.view();
        self.tool_calls.insert(p, ToolEntry { schema, handler });
        proof {
            assert(self.view() =~= before.insert(p as int, s));
            assert forall|i: int, j: int|
                0 <= i < j < self.view().len() implies name_lt(
                #[trigger] self.view()[i].name,
                #[trigger] self.view()[j].name,
            ) by {
                if j == p {
                } else if i == p {
                    if j > p + 1 {
                        lemma_name_lt_transitive(s.name, before[p as int].name, before[j - 1].name);
                    }
                } else if i < p && j > p {
                    assert(name_lt(before[i].name, s.name));
                    assert(name_lt(s.name, before[p as int].name));
                    lemma_name_lt_transitive(before[i].name, s.name, before[p as int].name);
                    if j - 1 > p {
                        lemma_name_lt_transitive(before[i].name, before[p as int].name, before[j - 1].name);
                    }
                } else if i > p {
                    assert(self.view()[i] == before[i - 1]);
                    assert(self.view()[j] == before[j - 1]);
                } else {
                    assert(self.view()[i] == before[i]);
                    assert(self.view()[j] == before[j]);
                }
            }
            assert(self.view()[p as int] == s);
            assert(self.handlers()[p as int] == handler);
            assert forall|t: ToolSchemaView|
                #[trigger] self.view().contains(t) <==> (t == s || (before.contains(t) && t.name
                    != s.name)) by {
                if self.view().contains(t) {
                    let k = choose|k: int| 0 <= k < self.view().len() && self.view()[k] == t;
                    if k < p {
                        assert(before[k] == t);
                        lemma_name_lt_irreflexive(t.name);
                    } else if k > p {
                        assert(before[k - 1] == t);
                        if k - 1 > p {
                            assert(name_lt(before[p as int].name, before[k - 1].name));
                            lemma_name_lt_transitive(s.name, before[p as int].name, before[k - 1].name);
                        }
                        lemma_name_lt_irreflexive(t.name);
                    }
                }
                if t == s {
                    assert(self.view()[p as int] == t);
                } else if before.contains(t) && t.name != s.name {
                    let k = choose|k: int| 0 <= k < before.len() && before[k] == t;
                    if k < p {
                        assert(self.view()[k] == t);
                    } else {
                        assert(self.view()[k + 1] == t);
                    }
                }
            }
        }
    }

    /// Position of the tool registered under `name`, if any.
    pub fn find(&self, name: &str) -> (r: Option<usize>)
        ensures
            r is Some ==> r->0 < self.view().len() && self.view()[r->0 as int].name == name@,
            r is None ==> forall|i: int| 0 <= i < self.view().len() ==> #[trigger] self.view()[i].name != name@,
    {
        let target = String::from_str(name);
        let mut i: usize = 0;
        while i < self.tool_calls.len()
            invariant
                i <= self.tool_calls.len(),
                target@ == name@,
                forall|k: int| 0 <= k < i ==> #[trigger] self.view()[k].name != name@,
            decreases self.tool_calls.len() - i,
        {
            assert(self.view()[i as int] == self.tool_calls@[i as int].schema.view());
            if self.tool_calls[i].schema.name == target {
                return Some(i);
            }
            i = i + 1;
        }
        None
    }

    /// Looks up the tool that a call of `fn_name` runs: its position, or
    /// `ToolNotFound` when no tool has that name. The caller runs the
    /// handler at that position with the call's arguments.
    pub fn execute(&self, fn_name: &str) -> (r: Result<usize, ExecutionError>)
        ensures
            r is Ok ==> r->Ok_0 < self.view().len() && self.view()[r->Ok_0 as int].name == fn_name@,
            r is Ok && self.well_formed() ==> r->Ok_0 == self.position(fn_name@),
            r is Err <==> !self.names().contains(fn_name@),
            r is Err ==> r->Err_0 is ToolNotFound && r->Err_0->ToolNotFound_0@ == fn_name@,
    {
        match self.find(fn_name) {
            Some(i) => {
                assert(self.names()[i as int] == fn_name@);
                proof {
                    if self.well_formed() {
                        self.lemma_unique_names();
                        assert(self.view()[self.position(fn_name@)].name == fn_name@);
                    }
                }
                Ok(i)
            },
            None => {
                assert(!self.names().contains(fn_name@)) by {
                    if self.names().contains(fn_name@) {
                        let k = choose|k: int| 0 <= k < self.names().len() && self.names()[k] == fn_name@;
                        assert(self.view()[k].name == fn_name@);
                    }
                }
                Err(ExecutionError::ToolNotFound(String::from_str(fn_name)))
            },
        }
    }

    /// The position of the tool named `name`.
    pub open spec fn position(&self, name: Seq<char>) -> int {
        choose|i: int| 0 <= i < self.view().len() && #[trigger] self.view()[i].name == name
    }

    /// No two tools share a name.
    pub proof fn lemma_unique_names(&self)
        requires
            self.well_formed(),
        ensures
            forall|i: int, j: int|
                0 <= i < self.view().len() && 0 <= j < self.view().len() && self.view()[i].name
                    == self.view()[j].name ==> i == j,
    {
        assert forall|i: int, j: int|
            0 <= i < self.view().len() && 0 <= j < self.view().len() && self.view()[i].name
                == self.view()[j].name implies i == j by {
            if i != j {
                lemma_name_lt_irreflexive(self.view()[i].name);
                if i < j {
                    assert(name_lt(self.view()[i].name, self.view()[j].name));
                } else {
                    assert(name_lt(self.view()[j].name, self.view()[i].name));
                }
            }
        }
    }

    /// The registered names, in order.
    pub open spec fn names(&self) -> Seq<Seq<char>> {
        self.view().map_values(|t: ToolSchemaView| t.name)
    }

    /// The handler of the tool at position `i`.
    pub fn handler(&self, i: usize) -> (r: &H)
        requires
            i < self.view().len(),
        ensures
            *r == self.handlers()[i as int],
    {
        &self.tool_calls[i].handler
    }

    /// Every registered tool with its schema documents, in name order.
    pub fn get_list(&self) -> (r: Vec<ToolCallSchemaData>)
        ensures
            r@.len() == self.view().len(),
            forall|k: int| 0 <= k < r@.len() ==> #[trigger] r@[k].view() == self.view()[k],
    {
        let mut r: Vec<ToolCallSchemaData> = Vec::new();
        let mut i: usize = 0;
        while i < self.tool_calls.len()
            invariant
                i <= self.tool_calls.len(),
                r@.len() == i,
                forall|k: int| 0 <= k < i ==> #[trigger] r@[k].view() == self.view()[k],
            decreases self.tool_calls.len() - i,
        {
            r.push(self.tool_calls[i].schema.duplicate());
            i = i + 1;
        }
        r
    }
}

/// Listing reads the registry only: two listings of one registry state
/// (each with `get_list`'s guarantee) are equal, and both give the tools in
/// strictly increasing name order.
pub proof fn lemma_listing_is_stable<H>(
    reg: McpToolCalls<H>,
    first: Seq<ToolSchemaView>,
    second: Seq<ToolSchemaView>,
)
    requires
        reg.well_formed(),
        first.len() == reg.view().len(),
        forall|k: int| 0 <= k < first.len() ==> #[trigger] first[k] == reg.view()[k],
        second.len() == reg.view().len(),
        forall|k: int| 0 <= k < second.len() ==> #[trigger] second[k] == reg.view()[k],
    ensures
        first == second,
        forall|i: int, j: int| 0 <= i < j < first.len() ==> name_lt(#[trigger] first[i].name, #[trigger] first[j].name),
{
    assert(first =~= second);
    assert forall|i: int, j: int| 0 <= i < j < first.len() implies name_lt(#[trigger] first[i].name, #[trigger] first[j].name) by {
        assert(first[i] == reg.view()[i]);
        assert(first[j] == reg.view()[j]);
    }
}


} // verus!
