use vstd::prelude::*;
use crate::scope::{bind, keys_unique, lookup, make_scope, merged};
use crate::value::TypstValue;

verus! {

/// Everything the document compiler needs for one request: the template
/// body, the merged global scope and the extra font sources.
pub struct CompileJob {
    pub body: String,
    pub scope: Vec<(String, TypstValue)>,
    pub fonts: Vec<String>,
}

/// A compilation request being put together: an optional template body,
/// JSON-origin bindings (raw JSON text under a key), native-origin bindings
/// and extra font paths.
pub struct Typst {
    pub body: Option<String>,
    pub json: Vec<(String, String)>,
    pub vars: Vec<(String, TypstValue)>,
    pub fonts: Vec<String>,
}

impl Typst {
    /// Each namespace holds a key at most once.
    pub open spec fn wf(&self) -> bool {
        keys_unique(self.json@) && keys_unique(self.vars@)
    }

    /// A request with the given body and nothing bound.
    pub fn new(body: Option<String>) -> (r: Self)
        ensures
            r.wf(),
            r.body == body,
            r.json@.len() == 0,
            r.vars@.len() == 0,
            r.fonts@.len() == 0,
    {
        Typst { body, json: Vec::new(), vars: Vec::new(), fonts: Vec::new() }
    }

    /// Binds the JSON text `value` under `key`, replacing an earlier JSON text
    /// of that key.
    pub fn json(&mut self, key: String, value: String)
        requires
            old(self).wf(),
        ensures
            final(self).wf(),
            lookup(final(self).json@, key@) == Some(value),
            forall|k: Seq<char>| k != key@ ==> #[trigger] lookup(final(self).json@, k) == lookup(old(self).json@, k),
            final(self).body == old(self).body,
            final(self).vars == old(self).vars,
            final(self).fonts == old(self).fonts,
    {
        bind(&mut self.json, key, value);
    }

    /// Binds the native value `value` under `key`, replacing an earlier native
    /// value of that key.
    pub fn var(&mut self, key: String, value: TypstValue)
        requires
            old(self).wf(),
        ensures
            final(self).wf(),
            lookup(final(self).vars@, key@) == Some(value),
            forall|k: Seq<char>| k != key@ ==> #[trigger] lookup(final(self).vars@, k) == lookup(old(self).vars@, k),
            final(self).body == old(self).body,
            final(self).json == old(self).json,
            final(self).fonts == old(self).fonts,
    {
        bind(&mut self.vars, key, value);
    }

    /// Adds a font file, or a directory to search for font files.
    pub fn font(&mut self, path: String)
        ensures
            final(self).fonts@ == old(self).fonts@.push(path),
            final(self).body == old(self).body,
            final(self).json == old(self).json,
            final(self).vars == old(self).vars,
    {
        self.fonts.push(path);
    }

    /// Prepares the compilation: fails with an input error when no body is
    /// set, before anything else is done; otherwise hands over the body, the
    /// merged scope and the font paths.
    pub fn compile(self) -> (r: Result<CompileJob, String>)
        requires
            self.wf(),
        ensures
            self.body is None <==> r is Err,
            r is Err ==> r->Err_0@ == "No body for typst compiler"@,
            r is Ok ==> {
                let job = r->Ok_0;
                &&& Some(job.body) == self.body
                &&& job.fonts == self.fonts
                &&& keys_unique(job.scope@)
                &&& forall|k: Seq<char>| #[trigger] merged(self.json@, self.vars@, k, lookup(job.scope@, k))
            },
    {
        match self.body {
            None => Err(String::from_str("No body for typst compiler")),
            Some(body) => {
                let scope = make_scope(&self.json, self.vars);
                Ok(CompileJob { body, scope, fonts: self.fonts })
            },
        }
    }
}

} // verus!
