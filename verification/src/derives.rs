//! The derive lists of the generated models.
//!
//! There are two lists, one for the model of a query's variables and one for
//! the models of its response. Each starts with one default name. Additional
//! names are taken once, from a comma-separated list, and go to both.

use crate::directive::{
    enum_directive, enum_directive_view, lemma_unique_head, model_directive, model_names,
    Directive, DirectiveView,
};
use crate::error::ContextError;
use crate::text::{lemma_name_list_nonempty, name_list, name_seq, parse_name_list};
use vstd::prelude::*;

verus! {

/// The mathematical value of a [`DeriveSet`]: its two lists, as sequences of names.
pub struct DeriveLists {
    /// The derives of the model of a query's variables.
    pub variables: Seq<Seq<char>>,
    /// The derives of the models of a query's response.
    pub response: Seq<Seq<char>>,
}

impl DeriveLists {
    /// The lists of a new set: one default name each.
    pub open spec fn seeded() -> DeriveLists {
        DeriveLists { variables: seq!["Serialize"@], response: seq!["Deserialize"@] }
    }

    /// Whether these are the lists of some derive set: each starts with its
    /// default name, and the same names follow in both.
    pub open spec fn wf(self) -> bool {
        &&& self.variables.len() >= 1
        &&& self.response.len() >= 1
        &&& self.variables[0] == "Serialize"@
        &&& self.response[0] == "Deserialize"@
        &&& self.variables.skip(1) == self.response.skip(1)
    }

    /// The names that were added to the defaults.
    pub open spec fn added(self) -> Seq<Seq<char>> {
        self.response.skip(1)
    }

    /// Whether additional derives can still be taken: nothing was added to
    /// the default of the response list yet.
    pub open spec fn accepts_ingestion(self) -> bool {
        self.response.len() <= 1
    }

    /// Both lists with the entries of the comma-separated list `raw`
    /// appended, in the order of `raw`; an error where additional derives were
    /// taken before.
    pub open spec fn ingest(self, raw: Seq<char>) -> Result<DeriveLists, ContextError> {
        if self.accepts_ingestion() {
            Ok(
                DeriveLists {
                    variables: self.variables + name_list(raw),
                    response: self.response + name_list(raw),
                },
            )
        } else {
            Err(ContextError::DerivesAlreadyIngested)
        }
    }

    /// The lists after a request to take `raw`: a refused request leaves them as they are.
    pub open spec fn after_ingest(self, raw: Seq<char>) -> DeriveLists {
        match self.ingest(raw) {
            Ok(lists) => lists,
            Err(_) => self,
        }
    }
}

/// Additional derives are taken once: after a request that was granted,
/// every further request is refused, whatever it holds, and leaves the lists
/// as the first request left them.
pub proof fn lemma_ingest_only_once(lists: DeriveLists, first: Seq<char>, second: Seq<char>)
    requires
        lists.wf(),
        lists.ingest(first) is Ok,
    ensures
        lists.after_ingest(first).wf(),
        lists.after_ingest(first).added() == name_list(first),
        lists.after_ingest(first).ingest(second) == Err::<DeriveLists, ContextError>(
            ContextError::DerivesAlreadyIngested,
        ),
        lists.after_ingest(first).after_ingest(second) == lists.after_ingest(first),
{
    lemma_name_list_nonempty(first);
    lemma_ingest_keeps_wf(lists, first);
    assert(lists.response =~= seq!["Deserialize"@]);
    assert(lists.after_ingest(first).added() =~= name_list(first));
}

/// A request, granted or refused, leaves lists that start with the defaults
/// and hold the same additional names.
pub proof fn lemma_ingest_keeps_wf(lists: DeriveLists, raw: Seq<char>)
    requires
        lists.wf(),
    ensures
        lists.after_ingest(raw).wf(),
{
    let after = lists.after_ingest(raw);
    if lists.ingest(raw) is Ok {
        assert(after.variables.skip(1) =~= lists.variables.skip(1) + name_list(raw));
        assert(after.response.skip(1) =~= lists.response.skip(1) + name_list(raw));
    }
}

/// A request that is refused stays refused: no later request is granted.
pub proof fn lemma_refused_stays_refused(lists: DeriveLists, first: Seq<char>, second: Seq<char>)
    requires
        lists.ingest(first) is Err,
    ensures
        lists.after_ingest(first) == lists,
        lists.after_ingest(first).ingest(second) is Err,
{
}

/// A new set takes additional derives: each list is then its default name
/// followed by the additional names in the order in which they were given,
/// and each rendered list starts with the default name.
pub proof fn lemma_seeded_ingest(raw: Seq<char>)
    ensures
        DeriveLists::seeded().wf(),
        DeriveLists::seeded().ingest(raw) is Ok,
        DeriveLists::seeded().after_ingest(raw).variables == seq!["Serialize"@] + name_list(raw),
        DeriveLists::seeded().after_ingest(raw).response == seq!["Deserialize"@] + name_list(raw),
        model_names(DeriveLists::seeded().after_ingest(raw).variables)[0] == "Serialize"@,
        model_names(DeriveLists::seeded().after_ingest(raw).response)[0] == "Deserialize"@,
{
    let lists = DeriveLists::seeded().after_ingest(raw);
    assert(DeriveLists::seeded().variables.skip(1) =~= DeriveLists::seeded().response.skip(1));
    lemma_unique_head(lists.variables);
    lemma_unique_head(lists.response);
}

/// Appends a copy of each name of `names` to `list`.
fn append_names(list: &mut Vec<String>, names: &Vec<String>)
    ensures
        name_seq(final(list)@) == name_seq(old(list)@) + name_seq(names@),
{
    let n = names.len();
    let mut i: usize = 0;
    assert(name_seq(names@).take(0) =~= Seq::<Seq<char>>::empty());
    assert(name_seq(list@) =~= name_seq(old(list)@) + name_seq(names@).take(0));
    while i < n
        invariant
            n == names.len(),
            i <= n,
            name_seq(list@) == name_seq(old(list)@) + name_seq(names@).take(i as int),
        decreases n - i,
    {
        let name = names[i].clone();
        proof {
            assert(name_seq(list@.push(name)) =~= name_seq(list@).push(name@));
            assert(name_seq(names@).take(i + 1) =~= name_seq(names@).take(i as int).push(name@));
            assert(name_seq(list@).push(name@) =~= name_seq(old(list)@) + name_seq(names@).take(
                i + 1,
            ));
        }
        list.push(name);
        i += 1;
    }
    assert(name_seq(names@).take(n as int) =~= name_seq(names@));
}

/// The derive lists of the generated models: one for the model of a query's
/// variables, one for the models of its response.
pub struct DeriveSet {
    variables: Vec<String>,
    response: Vec<String>,
}

impl View for DeriveSet {
    type V = DeriveLists;

    closed spec fn view(&self) -> DeriveLists {
        DeriveLists { variables: name_seq(self.variables@), response: name_seq(self.response@) }
    }
}

impl DeriveSet {
    #[verifier::type_invariant]
    spec fn inv(&self) -> bool {
        self@.wf()
    }

    /// A new set: the default name in each list.
    pub fn new() -> (set: DeriveSet)
        ensures
            set@ == DeriveLists::seeded(),
    {
        let mut variables: Vec<String> = Vec::new();
        variables.push("Serialize".to_owned());
        let mut response: Vec<String> = Vec::new();
        response.push("Deserialize".to_owned());
        proof {
            assert(name_seq(variables@) =~= DeriveLists::seeded().variables);
            assert(name_seq(response@) =~= DeriveLists::seeded().response);
            lemma_seeded_ingest(Seq::empty());
        }
        DeriveSet { variables, response }
    }

    /// Takes the additional derives of the comma-separated list `raw_list`:
    /// each entry, trimmed, is appended to both lists, in the order of
    /// `raw_list`. This is granted once; a further request is refused and
    /// changes nothing.
    pub fn ingest_additional(&mut self, raw_list: &str) -> (result: Result<(), ContextError>)
        ensures
            match old(self)@.ingest(raw_list@) {
                Ok(lists) => result is Ok && final(self)@ == lists,
                Err(error) => result == Err::<(), ContextError>(error) && final(self)@ == old(
                    self,
                )@,
            },
            final(self)@ == old(self)@.after_ingest(raw_list@),
            old(self)@.wf(),
            final(self)@.wf(),
    {
        proof {
            use_type_invariant(&*self);
            lemma_ingest_keeps_wf(self@, raw_list@);
        }
        if self.response.len() > 1 {
            return Err(ContextError::DerivesAlreadyIngested);
        }
        let names = parse_name_list(raw_list);
        let mut variables: Vec<String> = Vec::new();
        append_names(&mut variables, &self.variables);
        append_names(&mut variables, &names);
        let mut response: Vec<String> = Vec::new();
        append_names(&mut response, &self.response);
        append_names(&mut response, &names);
        proof {
            assert(name_seq(variables@) =~= self@.variables + name_list(raw_list@));
            assert(name_seq(response@) =~= self@.response + name_list(raw_list@));
        }
        *self = DeriveSet { variables, response };
        Ok(())
    }

    /// The directive of the model of a query's variables: the names of the
    /// list, each one once, where it first occurs.
    pub fn render_variables_derives(&self) -> (directive: Directive)
        ensures
            directive@ == DirectiveView::Derive(model_names(self@.variables)),
            self@.wf(),
    {
        proof {
            use_type_invariant(self);
        }
        model_directive(&self.variables)
    }

    /// The directive of the models of a query's response: the names of the
    /// list, each one once, where it first occurs.
    pub fn render_response_derives(&self) -> (directive: Directive)
        ensures
            directive@ == DirectiveView::Derive(model_names(self@.response)),
            self@.wf(),
    {
        proof {
            use_type_invariant(self);
        }
        model_directive(&self.response)
    }

    /// The directive of the enums of a query's response: the names of the
    /// response list, each one once, without those that name a serialization
    /// capability; the empty directive where no name is left.
    pub fn render_enum_derives(&self) -> (directive: Directive)
        ensures
            directive@ == enum_directive_view(self@.response),
            self@.wf(),
    {
        proof {
            use_type_invariant(self);
        }
        enum_directive(&self.response)
    }
}

} // verus!
