//! Texts on display that stay bound to a message of a domain.

use vstd::prelude::*;

use crate::catalog::{args_view, LocalizationArgs};
use crate::isolation::strip_isolation;
use crate::localization::{first_success, lookup_error, Localization, LocalizationError};

verus! {

/// A displayed text bound to a message and the arguments it is formatted with;
/// it is refreshed by resolving the message again whenever the locale or a
/// source changed.
pub struct LocalizedText {
    message_id: String,
    variables: LocalizationArgs,
}

impl LocalizedText {
    /// A text bound to a message without arguments.
    pub fn new(message_id: String) -> (r: LocalizedText)
        ensures
            r.message_id_spec() == message_id@,
            r.variables_spec() == Seq::<(Seq<char>, Seq<char>)>::empty(),
    {
        LocalizedText { message_id, variables: LocalizationArgs::new() }
    }

    /// A text bound to a message formatted with `variables`.
    pub fn new_with_variables(message_id: String, variables: LocalizationArgs) -> (r: LocalizedText)
        ensures
            r.message_id_spec() == message_id@,
            r.variables_spec() == variables@,
    {
        LocalizedText { message_id, variables }
    }

    /// The message of the text.
    pub closed spec fn message_id_spec(&self) -> Seq<char> {
        self.message_id@
    }

    /// The arguments of the text.
    pub closed spec fn variables_spec(&self) -> Seq<(Seq<char>, Seq<char>)> {
        self.variables@
    }

    /// The message of the text.
    pub fn message_id(&self) -> (r: &str)
        ensures
            r@ == self.message_id_spec(),
    {
        self.message_id.as_str()
    }

    /// The arguments of the text.
    pub fn variables(&self) -> (r: &LocalizationArgs)
        ensures
            r@ == self.variables_spec(),
    {
        &self.variables
    }

    /// The text to show now: the message resolved in the store with the
    /// text's arguments.
    pub fn refresh(&self, store: &Localization) -> (r: Result<String, LocalizationError>)
        requires
            store.wf(),
        ensures
            r is Ok <==> first_success(
                store@.chain,
                store@.catalogs,
                self.message_id_spec(),
                Some(self.variables_spec()),
            ) is Some,
            r is Ok ==> r->Ok_0@ == strip_isolation(
                first_success(
                    store@.chain,
                    store@.catalogs,
                    self.message_id_spec(),
                    Some(self.variables_spec()),
                )->0,
            ),
            r is Err ==> r->Err_0 == lookup_error(store@.chain, store@.catalogs),
    {
        let r = store.resolve(self.message_id.as_str(), Some(&self.variables));
        assert(args_view(Some(&self.variables)) == Some(self.variables_spec()));
        r
    }
}

} // verus!
