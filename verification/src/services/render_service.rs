//! Rendering: compiled-template memoization, typed output shaping, the
//! size ceiling, and a write-through rendered-output cache keyed by
//! template identity and variable fingerprint.

use vstd::prelude::*;
use crate::config::Config;
use crate::digest::{fingerprint_of, spec_fingerprint};
use crate::error::AppError;
use crate::jsoncheck::{is_push_shape, spec_push_shape};
use crate::keys::{rkey, rkey_prefix, spec_rkey, spec_rkey_prefix};
use crate::kv::{has_prefix, kv_del_prefix, kv_lookup, kv_set, KvCache, prefix_matches};
use crate::models::template::TemplateType;
use crate::rendering::{compile_template, execute_segments, seg_views, spec_compile, spec_render,
    Segment};
use crate::text::{json_escape, json_escape_str, str_eq};
use crate::vars::{map_canon, lemma_canonical_text_deterministic, VarMap};

verus! {

/// A rendered output: the serialized artifact the caller receives and the
/// cache stores.
#[derive(Debug, Clone, PartialEq, Eq)]
pub struct RenderedArtifact {
    /// The artifact as a JSON document: `{"rendered": ...}`.
    pub json: String,
}

impl View for RenderedArtifact {
    type V = Seq<char>;

    open spec fn view(&self) -> Seq<char> {
        self.json@
    }
}

/// The artifact for an HTML render: the output as a JSON string value.
pub open spec fn artifact_html(body: Seq<char>) -> Seq<char> {
    "{\"rendered\":\""@ + json_escape(body) + "\"}"@
}

/// The artifact for a push render: the rendered object embedded verbatim.
pub open spec fn artifact_push(obj: Seq<char>) -> Seq<char> {
    "{\"rendered\":"@ + obj + seq!['}']
}

/// The frame every artifact carries; a cached value that lost it cannot be
/// deserialized.
pub open spec fn artifact_frame_wf(s: Seq<char>) -> bool {
    &&& has_prefix(s, "{\"rendered\":"@)
    &&& s.len() > "{\"rendered\":"@.len()
    &&& s.last() == '}'
}

/// What a render of this type, source and variable mapping must produce,
/// if it succeeds: compile and execute — escaping interpolations for HTML —
/// then, for push, demand a JSON object holding "title" and "body".
pub open spec fn spec_output(
    t: TemplateType,
    content: Seq<char>,
    m: Map<Seq<char>, crate::vars::VarValueView>,
) -> Option<Seq<char>> {
    match t {
        TemplateType::EmailHtml => match spec_render(content, m, true) {
            None => None,
            Some(body) => Some(artifact_html(body)),
        },
        TemplateType::PushJson => match spec_render(content, m, false) {
            None => None,
            Some(txt) => if spec_push_shape(txt) {
                Some(artifact_push(txt))
            } else {
                None
            },
        },
    }
}

/// The renderer: configuration, plus the process-local memo of compiled
/// templates, keyed by the template source itself so that a hit is exactly
/// the compilation of the content asked about.
pub struct RenderService {
    config: Config,
    compiled: Vec<(String, Vec<Segment>)>,
}

impl RenderService {
    /// The compiled-template memo as mathematical pairs.
    pub closed spec fn spec_compiled(&self) -> Seq<(Seq<char>, Seq<crate::rendering::SegView>)> {
        self.compiled@.map_values(
            |e: (String, Vec<Segment>)| (e.0@, seg_views(e.1@)),
        )
    }

    /// The configured output ceiling, in kilobytes.
    pub closed spec fn spec_max_kb(&self) -> usize {
        self.config.max_rendered_size_kb
    }

    /// The TTL rendered outputs are cached with.
    pub closed spec fn spec_render_ttl(&self) -> u64 {
        self.config.rendered_cache_ttl_secs
    }

    /// Every memo entry is the compilation of its own key.
    pub open spec fn wf(&self) -> bool {
        forall|i: int|
            0 <= i < self.spec_compiled().len() ==> spec_compile(
                (#[trigger] self.spec_compiled()[i]).0,
            ) == Some(self.spec_compiled()[i].1)
    }

    /// A renderer with an empty compiled-template memo.
    pub fn new(config: Config) -> (r: RenderService)
        ensures
            r.wf(),
            r.spec_max_kb() == config.max_rendered_size_kb,
            r.spec_render_ttl() == config.rendered_cache_ttl_secs,
    {
        let r = RenderService { config, compiled: Vec::new() };
        proof {
            assert(r.spec_compiled() =~= Seq::empty());
        }
        r
    }

    /// The compiled form of `content`, memoized: a hit returns the earlier
    /// compilation, a miss compiles once and keeps the result for the
    /// process lifetime.
    fn compiled_for(&mut self, content: &str) -> (r: Result<usize, AppError>)
        requires
            old(self).wf(),
        ensures
            final(self).wf(),
            final(self).spec_max_kb() == old(self).spec_max_kb(),
            final(self).spec_render_ttl() == old(self).spec_render_ttl(),
            match r {
                Ok(i) => i < final(self).spec_compiled().len() && spec_compile(content@) == Some(
                    final(self).spec_compiled()[i as int].1,
                ),
                Err(e) => spec_compile(content@) is None && (e matches AppError::RenderError(_))
                    && *final(self) == *old(self),
            },
    {
        let mut i: usize = 0;
        while i < self.compiled.len()
            invariant
                i <= self.compiled@.len(),
                self == old(self),
                self.wf(),
            decreases self.compiled@.len() - i,
        {
            if str_eq(self.compiled[i].0.as_str(), content) {
                proof {
                    assert(self.spec_compiled()[i as int].0 == content@);
                }
                return Ok(i);
            }
            i += 1;
        }
        match compile_template(content) {
            None => Err(
                AppError::RenderError(String::from_str("unclosed placeholder in template")),
            ),
            Some(segs) => {
                let ghost c0 = self.spec_compiled();
                self.compiled.push((content.to_owned(), segs));
                proof {
                    assert(self.spec_compiled() =~= c0.push(
                        (content@, self.spec_compiled().last().1),
                    ));
                    assert forall|j: int|
                        0 <= j < self.spec_compiled().len() implies spec_compile(
                        (#[trigger] self.spec_compiled()[j]).0,
                    ) == Some(self.spec_compiled()[j].1) by {
                        if j < c0.len() {
                            assert(self.spec_compiled()[j] == c0[j]);
                        }
                    }
                }
                Ok(self.compiled.len() - 1)
            },
        }
    }

    /// Renders an HTML body and frames it: interpolated values are
    /// HTML-escaped, and the output is carried as a JSON string.
    fn render_html(&mut self, content: &str, variables: &VarMap) -> (r: Result<String, AppError>)
        requires
            old(self).wf(),
            variables.wf(),
        ensures
            final(self).wf(),
            final(self).spec_max_kb() == old(self).spec_max_kb(),
            final(self).spec_render_ttl() == old(self).spec_render_ttl(),
            match r {
                Ok(s) => spec_output(TemplateType::EmailHtml, content@, variables@) == Some(s@),
                Err(e) => spec_output(TemplateType::EmailHtml, content@, variables@) is None && (e
                    matches AppError::RenderError(_)),
            },
    {
        proof {
            reveal_strlit("{\"rendered\":\"");
            reveal_strlit("\"}");
        }
        let idx = match self.compiled_for(content) {
            Err(e) => {
                return Err(e);
            },
            Ok(i) => i,
        };
        let body = execute_segments(&self.compiled[idx].1, variables, true);
        proof {
            assert(spec_render(content@, variables@, true) == Some(body@));
        }
        let mut out = "{\"rendered\":\"".to_owned();
        let escaped = json_escape_str(body.as_str());
        out.append(escaped.as_str());
        out.append("\"}");
        proof {
            assert(out@ =~= artifact_html(body@));
        }
        Ok(out)
    }

    /// Renders a push payload and frames it: the rendered text must itself
    /// be a JSON object holding "title" and "body", and is embedded
    /// verbatim.
    fn render_push_json(&mut self, content: &str, variables: &VarMap) -> (r: Result<
        String,
        AppError,
    >)
        requires
            old(self).wf(),
            variables.wf(),
        ensures
            final(self).wf(),
            final(self).spec_max_kb() == old(self).spec_max_kb(),
            final(self).spec_render_ttl() == old(self).spec_render_ttl(),
            match r {
                Ok(s) => spec_output(TemplateType::PushJson, content@, variables@) == Some(s@),
                Err(e) => spec_output(TemplateType::PushJson, content@, variables@) is None && (e
                    matches AppError::RenderError(_)),
            },
    {
        proof {
            reveal_strlit("{\"rendered\":");
            reveal_strlit("}");
            assert("}"@ =~= seq!['}']);
        }
        let idx = match self.compiled_for(content) {
            Err(e) => {
                return Err(e);
            },
            Ok(i) => i,
        };
        let txt = execute_segments(&self.compiled[idx].1, variables, false);
        proof {
            assert(spec_render(content@, variables@, false) == Some(txt@));
        }
        if !is_push_shape(txt.as_str()) {
            return Err(
                AppError::RenderError(
                    String::from_str(
                        "rendered push template must be a JSON object with 'title' and 'body'",
                    ),
                ),
            );
        }
        let mut out = "{\"rendered\":".to_owned();
        out.append(txt.as_str());
        out.append("}");
        proof {
            assert(out@ =~= artifact_push(txt@));
        }
        Ok(out)
    }

    /// Renders through the output cache: canonicalize and fingerprint the
    /// variables, answer a well-framed cache hit directly, otherwise
    /// execute, enforce the size ceiling, and write the artifact through
    /// with the configured TTL — best effort, never failing the render.
    pub fn render(
        &mut self,
        cache: &mut KvCache,
        template_code: &str,
        version: i32,
        language: &str,
        template_type: &TemplateType,
        content: &str,
        variables: &VarMap,
        now: u64,
    ) -> (r: Result<RenderedArtifact, AppError>)
        requires
            old(self).wf(),
            old(cache).wf(),
            variables.wf(),
        ensures
            final(self).wf(),
            final(cache).wf(),
            final(self).spec_max_kb() == old(self).spec_max_kb(),
            final(self).spec_render_ttl() == old(self).spec_render_ttl(),
            ({
                let fp = spec_fingerprint(map_canon(variables.entry_views()));
                let key = spec_rkey(template_code@, version as int, language@, fp);
                match kv_lookup(old(cache)@, key, now) {
                    Some(c) => if artifact_frame_wf(c) {
                        r matches Ok(a) && a@ == c && final(cache)@ == old(cache)@
                    } else {
                        r matches Err(e) && (e matches AppError::InternalError(_))
                            && final(cache)@ == old(cache)@
                    },
                    None => match spec_output(*template_type, content@, variables@) {
                        None => r matches Err(e) && (e matches AppError::RenderError(_))
                            && final(cache)@ == old(cache)@,
                        Some(out) => if (vstd::utf8::encode_utf8(out).len() as usize) / 1024
                            > old(self).spec_max_kb() {
                            r matches Err(e) && e == AppError::RenderedSizeExceeded
                                && final(cache)@ == old(cache)@
                        } else {
                            r matches Ok(a) && a@ == out && final(cache)@ == kv_set(
                                old(cache)@,
                                key,
                                out,
                                old(self).spec_render_ttl(),
                                now,
                            )
                        },
                    },
                }
            }),
    {
        let fp = fingerprint_of(variables);
        let key = rkey(template_code, version, language, fp.as_str());
        match cache.get(key.as_str(), now) {
            Some(cached) => {
                if artifact_frame_check(cached.as_str()) {
                    return Ok(RenderedArtifact { json: cached });
                }
                return Err(
                    AppError::InternalError(String::from_str("cached artifact lost its frame")),
                );
            },
            None => {},
        }
        let rendered_str = match template_type {
            TemplateType::EmailHtml => self.render_html(content, variables),
            TemplateType::PushJson => self.render_push_json(content, variables),
        };
        let rendered_str = match rendered_str {
            Err(e) => {
                return Err(e);
            },
            Ok(s) => s,
        };
        let size_kb = rendered_str.as_str().len() / 1024;
        if size_kb > self.config.max_rendered_size_kb {
            return Err(AppError::RenderedSizeExceeded);
        }
        cache.set_ex(key.as_str(), rendered_str.as_str(), self.config.rendered_cache_ttl_secs, now);
        Ok(RenderedArtifact { json: rendered_str })
    }

    /// Removes every rendered-output cache entry of one
    /// `(code, version, language)`; eventual, best-effort invalidation.
    pub fn invalidate_cache(
        &self,
        cache: &mut KvCache,
        template_code: &str,
        version: i32,
        language: &str,
    )
        requires
            old(cache).wf(),
        ensures
            final(cache).wf(),
            final(cache)@ == kv_del_prefix(
                old(cache)@,
                spec_rkey_prefix(template_code@, version as int, language@),
            ),
    {
        let p = rkey_prefix(template_code, version, language);
        cache.del_prefix(p.as_str());
    }
}

/// Whether a cached value still carries the artifact frame.
fn artifact_frame_check(s: &str) -> (r: bool)
    ensures
        r == artifact_frame_wf(s@),
{
    proof {
        reveal_strlit("{\"rendered\":");
        assert("{\"rendered\":"@.len() == 12);
    }
    let len = s.unicode_len();
    if len <= 12 {
        proof {
            if has_prefix(s@, "{\"rendered\":"@) && s@.len() > 12 {
                assert(false);
            }
        }
        return false;
    }
    prefix_matches(s, "{\"rendered\":") && s.get_char(len - 1) == '}'
}

/// Two structurally identical variable mappings — whatever order they were
/// built in — produce the same fingerprint and the same rendered-output
/// cache key; with the render contract, they also produce identical
/// output for the same template.
pub proof fn lemma_render_key_deterministic(
    v1: VarMap,
    v2: VarMap,
    code: Seq<char>,
    version: int,
    language: Seq<char>,
)
    requires
        v1.wf(),
        v2.wf(),
        v1@ == v2@,
    ensures
        spec_fingerprint(map_canon(v1.entry_views())) == spec_fingerprint(
            map_canon(v2.entry_views()),
        ),
        spec_rkey(code, version, language, spec_fingerprint(map_canon(v1.entry_views())))
            == spec_rkey(code, version, language, spec_fingerprint(map_canon(v2.entry_views()))),
{
    lemma_canonical_text_deterministic(v1, v2);
}

} // verus!
