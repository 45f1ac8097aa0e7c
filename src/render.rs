//! The decisions of a render run. A run walks the parsed items in order; the
//! caller performs the outside work each decision asks for (reading a
//! metric, running a command) and hands the result back.
use vstd::prelude::*;
use crate::builtins::{build_builtins, builtin_names, Builtin, ProviderError};
use crate::modifiers::{apply_chain, build_modifiers, chain, modifier_names, Modifier};
use crate::space::{trim, trimmed};
use crate::table::{map_of, Table};
use crate::template::{Directive, Expression};

verus! {

/// Why a render stopped.
#[derive(Debug)]
pub enum RenderError {
    UnknownBuiltin(String),
    UndefinedCustom(String),
    UnknownModifier(String),
    Provider(ProviderError),
}

/// Where an expression's raw value comes from.
#[derive(Debug)]
pub enum Source {
    /// The value of a builtin metric.
    Metric(Builtin),
    /// The trimmed output of a shell command, run with the bound names in
    /// its environment.
    Command(String),
}

/// The state of one render run: the names bound so far by directives.
pub struct Renderer {
    /// The builtins by name.
    pub builtins: Table<Builtin>,
    /// The modifiers by name.
    pub modifiers: Table<Modifier>,
    /// Names bound to builtin values, passed to custom commands.
    pub environ: Table<String>,
    /// Names bound to shell commands.
    pub custom: Table<String>,
}

/// The modifiers named by `names`, if every name is one.
pub open spec fn modifiers_named(names: Seq<String>) -> Option<Seq<Modifier>>
    decreases names.len(),
{
    if names.len() == 0 {
        Some(Seq::empty())
    } else {
        match modifiers_named(names.drop_last()) {
            Some(ms) => if modifier_names().contains_key(names.last()@) {
                Some(ms.push(modifier_names()[names.last()@]))
            } else {
                None
            },
            None => None,
        }
    }
}

proof fn lemma_modifiers_unknown(names: Seq<String>, i: int)
    requires
        0 <= i < names.len(),
        !modifier_names().contains_key(names[i]@),
    ensures
        modifiers_named(names) is None,
    decreases names.len(),
{
    if i < names.len() - 1 {
        lemma_modifiers_unknown(names.drop_last(), i);
    }
}

impl Renderer {
    pub open spec fn wf(&self) -> bool {
        &&& self.builtins@ == builtin_names()
        &&& self.modifiers@ == modifier_names()
    }

    /// A run before any directive.
    pub fn new() -> (r: Self)
        ensures
            r.wf(),
            r.environ@ == Map::<Seq<char>, String>::empty(),
            r.custom@ == Map::<Seq<char>, String>::empty(),
    {
        Renderer {
            builtins: build_builtins(),
            modifiers: build_modifiers(),
            environ: Table::new(),
            custom: Table::new(),
        }
    }

    /// The builtin named `name`.
    pub fn builtin(&self, name: &str) -> (r: Result<Builtin, RenderError>)
        requires
            self.wf(),
        ensures
            r.is_ok() == builtin_names().contains_key(name@),
            r.is_ok() ==> r.unwrap() == builtin_names()[name@],
            r.is_err() ==> ((r->Err_0) matches RenderError::UnknownBuiltin(n) && n@ == name@),
    {
        match self.builtins.get(name) {
            Some(b) => Ok(*b),
            None => Err(RenderError::UnknownBuiltin(String::from_str(name))),
        }
    }

    /// Takes in a directive. A command definition is recorded at once; an
    /// environment binding yields the builtin whose value the caller must
    /// read and hand to `bind`.
    pub fn directive(&mut self, d: &Directive) -> (r: Result<Option<Builtin>, RenderError>)
        requires
            old(self).wf(),
        ensures
            final(self).wf(),
            final(self).environ@ == old(self).environ@,
            match d {
                Directive::Custom { name, command } => {
                    &&& r matches Ok(None)
                    &&& final(self).custom@ == old(self).custom@.insert(name@, *command)
                },
                Directive::Environ { name, builtin } => {
                    &&& final(self).custom@ == old(self).custom@
                    &&& r.is_ok() == builtin_names().contains_key(builtin@)
                    &&& r.is_ok() ==> r.unwrap() == Some(builtin_names()[builtin@])
                    &&& r.is_err() ==> ((r->Err_0) matches RenderError::UnknownBuiltin(n) && n@ == builtin@)
                },
            },
    {
        match d {
            Directive::Custom { name, command } => {
                self.custom.insert(name.clone(), command.clone());
                Ok(None)
            },
            Directive::Environ { name: _, builtin } => {
                let b = self.builtin(builtin.as_str())?;
                Ok(Some(b))
            },
        }
    }

    /// Binds `name` to a builtin's value, replacing an earlier binding.
    pub fn bind(&mut self, name: String, value: String)
        requires
            old(self).wf(),
        ensures
            final(self).wf(),
            final(self).environ@ == old(self).environ@.insert(name@, value),
            final(self).custom@ == old(self).custom@,
    {
        self.environ.insert(name, value);
    }

    /// The environment a custom command runs with: each bound name with its
    /// latest value (a name may occur more than once, the last occurrence
    /// winning, as when the pairs are set one after another).
    pub fn environment(&self) -> (r: &Vec<(String, String)>)
        ensures
            map_of(r@) == self.environ@,
    {
        self.environ.entries()
    }

    /// Where the value of an expression comes from: the builtin it names, or
    /// the command last defined for the custom name.
    pub fn source(&self, e: &Expression) -> (r: Result<Source, RenderError>)
        requires
            self.wf(),
        ensures
            !e.custom ==> {
                &&& r.is_ok() == builtin_names().contains_key(e.name@)
                &&& r.is_ok() ==> r.unwrap() == Source::Metric(builtin_names()[e.name@])
                &&& r.is_err() ==> ((r->Err_0) matches RenderError::UnknownBuiltin(n) && n@ == e.name@)
            },
            e.custom ==> {
                &&& r.is_ok() == self.custom@.contains_key(e.name@)
                &&& r.is_ok() ==> (r.unwrap() matches Source::Command(c) && c@ == self.custom@[e.name@]@)
                &&& r.is_err() ==> ((r->Err_0) matches RenderError::UndefinedCustom(n) && n@ == e.name@)
            },
    {
        if e.custom {
            match self.custom.get(e.name.as_str()) {
                Some(c) => Ok(Source::Command(c.clone())),
                None => Err(RenderError::UndefinedCustom(e.name.clone())),
            }
        } else {
            let b = self.builtin(e.name.as_str())?;
            Ok(Source::Metric(b))
        }
    }

    /// Applies the modifiers named by `names`, first to last, to an
    /// expression's raw value.
    pub fn finish(&self, raw: String, names: &Vec<String>) -> (r: Result<String, RenderError>)
        requires
            self.wf(),
        ensures
            r.is_ok() == modifiers_named(names@).is_some(),
            r.is_ok() ==> chain(modifiers_named(names@).unwrap(), raw@, r.unwrap()@),
            r.is_err() ==> ((r->Err_0) matches RenderError::UnknownModifier(n) && exists|i: int|
                0 <= i < names@.len() && n@ == (#[trigger] names@[i])@ && !modifier_names().contains_key(n@)
                    && forall|j: int| 0 <= j < i ==> modifier_names().contains_key(#[trigger] names@[j]@)),
    {
        let mut ms: Vec<Modifier> = Vec::new();
        let mut i: usize = 0;
        while i < names.len()
            invariant
                self.wf(),
                i <= names@.len(),
                modifiers_named(names@.take(i as int)) == Some(ms@),
                forall|j: int| 0 <= j < i ==> modifier_names().contains_key(#[trigger] names@[j]@),
            decreases names@.len() - i,
        {
            proof {
                let t = names@.take(i + 1);
                assert(t.drop_last() == names@.take(i as int));
                assert(t.last() == names@[i as int]);
            }
            match self.modifiers.get(names[i].as_str()) {
                Some(m) => {
                    ms.push(*m);
                },
                None => {
                    proof {
                        lemma_modifiers_unknown(names@, i as int);
                    }
                    return Err(RenderError::UnknownModifier(names[i].clone()));
                },
            }
            i = i + 1;
        }
        assert(names@.take(names@.len() as int) == names@);
        Ok(apply_chain(raw, &ms))
    }
}

/// The raw value of a custom expression: the command's output without its
/// surrounding whitespace.
pub fn command_value(output: &str) -> (r: String)
    ensures
        r@ == trimmed(output@),
{
    trim(output)
}

/// A custom name is unknown until a directive defines it, and known from
/// then on: `fresh` is a run before any directive, `defined` the same run
/// after the directive `name = "command"`.
pub proof fn custom_defined_in_order(fresh: Renderer, defined: Renderer, name: String, command: String)
    requires
        fresh.custom@ == Map::<Seq<char>, String>::empty(),
        defined.custom@ == fresh.custom@.insert(name@, command),
    ensures
        !fresh.custom@.contains_key(name@),
        defined.custom@.contains_key(name@),
        defined.custom@[name@] == command,
{
}

/// Defining a custom name again replaces the command that later references
/// run, and a reference made in between ran the first command: `first` is a
/// run after the definition `name = "one"`, `second` the same run after a
/// later definition `name = "two"`.
pub proof fn redefinition_overwrites(
    before: Renderer,
    first: Renderer,
    second: Renderer,
    name: String,
    one: String,
    two: String,
)
    requires
        first.custom@ == before.custom@.insert(name@, one),
        second.custom@ == first.custom@.insert(name@, two),
    ensures
        first.custom@.contains_key(name@) && first.custom@[name@] == one,
        second.custom@.contains_key(name@) && second.custom@[name@] == two,
        forall|other: Seq<char>| other != name@ ==> second.custom@.contains_key(other)
            == before.custom@.contains_key(other),
{
}

/// A value bound by a directive is in the environment of every custom command
/// run after it, under its name and unchanged, until the name is bound again:
/// `bound` is the run `before` after `bind(name, value)`, and `entries` what
/// `bound.environment()` hands out.
pub proof fn binding_reaches_commands(
    before: Renderer,
    bound: Renderer,
    name: String,
    value: String,
    entries: Seq<(String, String)>,
)
    requires
        bound.environ@ == before.environ@.insert(name@, value),
        map_of(entries) == bound.environ@,
    ensures
        map_of(entries).contains_key(name@),
        map_of(entries)[name@] == value,
{
}

} // verus!
