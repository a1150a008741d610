//! Templates, the template cache, and the render pipeline: bind, render,
//! substitute variables.
use vstd::prelude::*;
use crate::binder::{TemplateContext, bind_nodes, process_blocks, substitute, substitute_variables_in_content};
use crate::block::{Block, Node, TemplateData, blocks_view, copy_blocks, copy_pairs, pairs_view};
use crate::error::Error;
use crate::parser::{document, parse};
use crate::renderer::PageRenderer;

verus! {

/// A named, parsed document with its source text and declared variables.
#[derive(Debug)]
pub struct Template {
    pub name: String,
    pub content: String,
    pub blocks: Vec<Block>,
    pub variables: Vec<(String, String)>,
}

/// The model of a template: name, source, blocks and variables.
pub struct TemplateModel {
    pub name: Seq<char>,
    pub content: Seq<char>,
    pub blocks: Seq<Node>,
    pub variables: Seq<(Seq<char>, Seq<char>)>,
}

pub open spec fn template_view(t: Template) -> TemplateModel {
    TemplateModel {
        name: t.name@,
        content: t.content@,
        blocks: blocks_view(t.blocks@),
        variables: pairs_view(t.variables@),
    }
}

/// `m` with `key` bound to `value`: the pair with that key replaced, or a new
/// pair last.
pub open spec fn bind_var(m: Seq<(Seq<char>, Seq<char>)>, key: Seq<char>, value: Seq<char>) -> Seq<(Seq<char>, Seq<char>)> {
    crate::parser::meta_insert(m, key, value)
}

/// A copy of a template, with the same model.
pub fn copy_template(t: &Template) -> (r: Template)
    ensures
        template_view(r) == template_view(*t),
{
    Template {
        name: t.name.clone(),
        content: t.content.clone(),
        blocks: copy_blocks(&t.blocks),
        variables: copy_pairs(&t.variables),
    }
}

impl Template {
    /// Parses `content` into a template named `name`; fails as `parse` does.
    pub fn from_string(name: String, content: String) -> (r: Result<Template, Error>)
        ensures
            match document(content@) {
                Ok(nodes) => r matches Ok(t) && t.name@ == name@ && t.content@ == content@ && blocks_view(t.blocks@)
                    == nodes && t.variables@.len() == 0,
                Err(f) => r matches Err(Error::Parse(e)) && crate::parser::reports(e, f),
            },
    {
        match parse(content.as_str()) {
            Ok(blocks) => Ok(Template { name, content, blocks, variables: Vec::new() }),
            Err(e) => Err(e),
        }
    }

    /// The blocks and name that a renderer needs.
    pub fn to_template_data(&self) -> (r: TemplateData)
        ensures
            blocks_view(r.blocks@) == blocks_view(self.blocks@),
            r.template_name@ == self.name@,
    {
        TemplateData { blocks: copy_blocks(&self.blocks), template_name: self.name.clone() }
    }

    /// Binds the variable `name` to `value`.
    pub fn set_variable(&mut self, name: String, value: String)
        requires
            crate::parser::keys_unique(pairs_view(old(self).variables@)),
        ensures
            pairs_view(final(self).variables@) == bind_var(pairs_view(old(self).variables@), name@, value@),
            crate::parser::keys_unique(pairs_view(final(self).variables@)),
            final(self).name == old(self).name,
            final(self).content == old(self).content,
            final(self).blocks == old(self).blocks,
    {
        crate::parser::insert_meta(&mut self.variables, name, value);
    }

    /// Binds each of `variables` in turn.
    pub fn set_variables(&mut self, variables: Vec<(String, String)>)
        requires
            crate::parser::keys_unique(pairs_view(old(self).variables@)),
        ensures
            pairs_view(final(self).variables@) == crate::models::bind_all(pairs_view(old(self).variables@), pairs_view(variables@)),
            crate::parser::keys_unique(pairs_view(final(self).variables@)),
            final(self).name == old(self).name,
            final(self).content == old(self).content,
            final(self).blocks == old(self).blocks,
    {
        crate::models::extend_pairs(&mut self.variables, &variables);
    }
}

/// The templates loaded so far, by name; each name once.
pub struct TemplateCache {
    pub entries: Vec<(String, Template)>,
}

/// The model of the cache entry for `name`, if there is one.
pub open spec fn cached(entries: Seq<(String, Template)>, name: Seq<char>) -> Option<TemplateModel>
    decreases entries.len(),
{
    if entries.len() == 0 {
        None
    } else if entries.last().0@ == name {
        Some(template_view(entries.last().1))
    } else {
        cached(entries.drop_last(), name)
    }
}

impl TemplateCache {
    /// An empty cache.
    pub fn new() -> (r: Self)
        ensures
            forall|n: Seq<char>| cached(r.entries@, n) is None,
    {
        TemplateCache { entries: Vec::new() }
    }

    /// A copy of the template cached under `name`, if any.
    pub fn get(&self, name: &str) -> (r: Option<Template>)
        ensures
            match cached(self.entries@, name@) {
                Some(m) => r matches Some(t) && template_view(t) == m,
                None => r is None,
            },
    {
        let mut i = self.entries.len();
        assert(self.entries@.subrange(0, i as int) =~= self.entries@);
        while i > 0
            invariant
                i <= self.entries@.len(),
                cached(self.entries@, name@) == cached(self.entries@.subrange(0, i as int), name@),
            decreases i,
        {
            let ghost p = self.entries@.subrange(0, i as int);
            assert(p.drop_last() =~= self.entries@.subrange(0, i - 1));
            if crate::models::same_text(self.entries[i - 1].0.as_str(), crate::strings::chars_of(name).as_slice()) {
                return Some(copy_template(&self.entries[i - 1].1));
            }
            i -= 1;
        }
        None
    }

    /// Caches `template` under `name`, in place of any earlier entry.
    pub fn insert(&mut self, name: String, template: Template)
        ensures
            cached(final(self).entries@, name@) == Some(template_view(template)),
            forall|n: Seq<char>| n != name@ ==> cached(final(self).entries@, n) == cached(old(self).entries@, n),
    {
        self.entries.push((name, template));
        assert(self.entries@.drop_last() =~= old(self).entries@);
    }

    /// Forgets every cached template.
    pub fn clear(&mut self)
        ensures
            forall|n: Seq<char>| cached(final(self).entries@, n) is None,
    {
        self.entries.clear();
    }
}

/// Binds a template to `ctx`, renders it, and replaces `[[name]]` tokens by
/// the context's variables.
pub fn render_template_with<R: PageRenderer>(template: &Template, context: &TemplateContext, renderer: &R) -> (r:
    Result<String, Error>)
    ensures
        r matches Ok(s) && exists|page: Seq<char>|
            renderer.page_ok(template.name@, bind_nodes(blocks_view(template.blocks@), *context), page) && s@
                == substitute(page, pairs_view(context.variables@)),
{
    let bound = match process_blocks(template.blocks.as_slice(), context) {
        Ok(b) => b,
        Err(e) => return Err(e),
    };
    let data = TemplateData { blocks: bound, template_name: template.name.clone() };
    let page = match renderer.render_template(&data) {
        Ok(p) => p,
        Err(e) => return Err(e),
    };
    Ok(substitute_variables_in_content(page.as_str(), context.variables.as_slice()))
}

} // verus!
