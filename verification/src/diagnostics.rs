//! Rendering terminal failures into human-readable reports: flat messages
//! for conversion errors, and source-span diagnostics for parse and
//! validation failures.

use vstd::prelude::*;
use vstd::string::StringExecFns;
use crate::error::{
    AsModuleDescriptorError, GlslParseError, PipelineCacheError, ProcessedShader,
    ShaderReflectError, SpanLabel, ValidationError,
};

verus! {

/// What `codespan_reporting` renders for one error diagnostic over one named
/// source: a function of the file name, the source text, the message, the
/// labelled byte spans and the notes, and of nothing else.
pub uninterp spec fn rendered_diagnostic(
    name: Seq<char>,
    source: Seq<char>,
    message: Seq<char>,
    labels: Seq<(int, int, Seq<char>)>,
    notes: Seq<Seq<char>>,
) -> Seq<char>;

/// The spans and note of each label, in order.
pub open spec fn span_labels_view(labels: Seq<SpanLabel>) -> Seq<(int, int, Seq<char>)> {
    labels.map_values(|l: SpanLabel| (l.start as int, l.end as int, l.message@))
}

/// Relies on codespan_reporting::term::emit_into_string over a SimpleFile:
/// renders one error diagnostic, with a primary label per span and the given
/// notes; the rendering depends on the arguments alone, and the crate's own
/// files::Error values are handled, never panicking, for labels whose start
/// does not exceed their end.
#[verifier::external_body]
fn render_diagnostic(
    name: &str,
    source: &str,
    message: &str,
    labels: &Vec<SpanLabel>,
    notes: &Vec<String>,
) -> (r: String)
    requires
        forall|i: int| 0 <= i < labels@.len() ==> (#[trigger] labels@[i]).start <= labels@[i].end,
    ensures
        r@ == rendered_diagnostic(
            name@,
            source@,
            message@,
            span_labels_view(labels@),
            notes.deep_view(),
        ),
{
    let files = codespan_reporting::files::SimpleFile::new(name, source);
    let rendered_labels = labels.iter().map(
        |l: &SpanLabel|
            codespan_reporting::diagnostic::Label::primary((), l.start..l.end).with_message(
                &l.message,
            ),
    ).collect();
    let diagnostic = codespan_reporting::diagnostic::Diagnostic::error().with_message(
        message,
    ).with_labels(rendered_labels).with_notes(notes.clone());
    let config = codespan_reporting::term::Config::default();
    match codespan_reporting::term::emit_into_string(&config, &files, &diagnostic) {
        Ok(rendered) => rendered,
        Err(_) => String::new(),
    }
}

/// The labels that can be rendered: those whose span is not reversed.
pub open spec fn valid_labels_view(labels: Seq<SpanLabel>) -> Seq<(int, int, Seq<char>)>
    decreases labels.len(),
{
    if labels.len() == 0 {
        Seq::empty()
    } else {
        valid_labels_view(labels.drop_last()) + (if labels.last().start <= labels.last().end {
            seq![
                (
                    labels.last().start as int,
                    labels.last().end as int,
                    labels.last().message@,
                ),
            ]
        } else {
            Seq::empty()
        })
    }
}

proof fn lemma_valid_labels_step(labels: Seq<SpanLabel>, i: int)
    requires
        0 <= i < labels.len(),
    ensures
        valid_labels_view(labels.take(i + 1)) == valid_labels_view(labels.take(i)) + (if labels[
            i
        ].start <= labels[i].end {
            seq![(labels[i].start as int, labels[i].end as int, labels[i].message@)]
        } else {
            Seq::empty()
        }),
{
    assert(labels.take(i + 1).drop_last() =~= labels.take(i));
    assert(labels.take(i + 1).last() == labels[i]);
}

/// Copies the labels whose spans are not reversed, in order.
fn collect_valid_labels(labels: &Vec<SpanLabel>) -> (r: Vec<SpanLabel>)
    ensures
        span_labels_view(r@) == valid_labels_view(labels@),
        forall|i: int| 0 <= i < r@.len() ==> (#[trigger] r@[i]).start <= r@[i].end,
{
    let mut r: Vec<SpanLabel> = Vec::new();
    let n = labels.len();
    proof {
        assert(labels@.take(0) =~= Seq::<SpanLabel>::empty());
        assert(span_labels_view(r@) =~= valid_labels_view(labels@.take(0)));
    }
    for i in 0..n
        invariant
            n == labels@.len(),
            span_labels_view(r@) == valid_labels_view(labels@.take(i as int)),
            forall|j: int| 0 <= j < r@.len() ==> (#[trigger] r@[j]).start <= r@[j].end,
    {
        proof {
            lemma_valid_labels_step(labels@, i as int);
        }
        if labels[i].start <= labels[i].end {
            r.push(
                SpanLabel {
                    start: labels[i].start,
                    end: labels[i].end,
                    message: labels[i].message.clone(),
                },
            );
            proof {
                assert(span_labels_view(r@) =~= valid_labels_view(labels@.take(i + 1)));
            }
        } else {
            proof {
                assert(span_labels_view(r@) =~= valid_labels_view(labels@.take(i + 1)));
            }
        }
    }
    proof {
        assert(labels@.take(n as int) =~= labels@);
    }
    r
}

/// The label of one GLSL parse error: its span when present and not
/// reversed, with no note of its own.
pub open spec fn glsl_labels(e: GlslParseError) -> Seq<(int, int, Seq<char>)> {
    match e.span {
        Some(sp) => if sp.0 <= sp.1 {
            seq![(sp.0 as int, sp.1 as int, Seq::<char>::empty())]
        } else {
            Seq::empty()
        },
        None => Seq::empty(),
    }
}

/// One rendered diagnostic per GLSL parse error, concatenated in order.
pub open spec fn glsl_report_view(source: Seq<char>, errors: Seq<GlslParseError>) -> Seq<char>
    decreases errors.len(),
{
    if errors.len() == 0 {
        Seq::empty()
    } else {
        glsl_report_view(source, errors.drop_last()) + rendered_diagnostic(
            "glsl"@,
            source,
            errors.last().message@,
            glsl_labels(errors.last()),
            Seq::empty(),
        )
    }
}

/// What the report of a terminal module-descriptor failure says, for each
/// shape of error and processed source. A span-aware failure paired with a
/// source of another language is reported flat instead of panicking.
pub open spec fn shader_error_report_view(
    source: ProcessedShader,
    error: AsModuleDescriptorError,
) -> Seq<char> {
    match error {
        AsModuleDescriptorError::ShaderReflectError(e) => match e {
            ShaderReflectError::WgslParse(msg) => "failed to process shader:\n"@ + msg@,
            ShaderReflectError::GlslParse(errors) => match source {
                ProcessedShader::Glsl(src) => "failed to process shader: \n"@ + glsl_report_view(
                    src@,
                    errors@,
                ),
                _ => "failed to process shader: source does not match the reported language"@,
            },
            ShaderReflectError::SpirVParse(msg) => "failed to process shader:\n"@ + msg@,
            ShaderReflectError::Validation(v) => match source {
                ProcessedShader::Wgsl(src) => "failed to process shader: \n"@ + rendered_diagnostic(
                    "wgsl"@,
                    src@,
                    v.message@,
                    valid_labels_view(v.labels@),
                    v.causes.deep_view(),
                ),
                ProcessedShader::Glsl(src) => "failed to process shader: \n"@ + rendered_diagnostic(
                    "glsl"@,
                    src@,
                    v.message@,
                    valid_labels_view(v.labels@),
                    v.causes.deep_view(),
                ),
                ProcessedShader::SpirV(_) => "failed to process shader:\n"@ + v.message@,
            },
        },
        AsModuleDescriptorError::WgslConversion(msg) => "failed to convert shader to wgsl: \n"@
            + msg@,
        AsModuleDescriptorError::SpirVConversion(msg) => "failed to convert shader to spirv: \n"@
            + msg@,
    }
}

/// Renders the diagnostic of a validation error against its source.
fn render_validation(name: &str, source: &str, v: &ValidationError) -> (r: String)
    ensures
        r@ == rendered_diagnostic(
            name@,
            source@,
            v.message@,
            valid_labels_view(v.labels@),
            v.causes.deep_view(),
        ),
{
    let labels = collect_valid_labels(&v.labels);
    render_diagnostic(name, source, v.message.as_str(), &labels, &v.causes)
}

/// Formats a terminal module-descriptor failure with source-span
/// diagnostics: parse and validation failures are rendered against the
/// processed source, conversion failures as flat messages.
pub fn shader_error_report(source: &ProcessedShader, error: &AsModuleDescriptorError) -> (r: String)
    ensures
        r@ == shader_error_report_view(*source, *error),
{
    let mut out = String::new();
    match error {
        AsModuleDescriptorError::ShaderReflectError(e) => match e {
            ShaderReflectError::WgslParse(msg) => {
                out.append("failed to process shader:\n");
                out.append(msg.as_str());
            },
            ShaderReflectError::GlslParse(errors) => match source {
                ProcessedShader::Glsl(src) => {
                    out.append("failed to process shader: \n");
                    let n = errors.len();
                    for i in 0..n
                        invariant
                            n == errors@.len(),
                            out@ == "failed to process shader: \n"@ + glsl_report_view(
                                src@,
                                errors@.take(i as int),
                            ),
                    {
                        let mut labels: Vec<SpanLabel> = Vec::new();
                        match errors[i].span {
                            Some((start, end)) => {
                                if start <= end {
                                    labels.push(SpanLabel { start, end, message: String::new() });
                                }
                            },
                            None => {},
                        }
                        proof {
                            assert(span_labels_view(labels@) =~= glsl_labels(errors@[i as int]));
                        }
                        let no_notes: Vec<String> = Vec::new();
                        proof {
                            assert(no_notes.deep_view() =~= Seq::<Seq<char>>::empty());
                        }
                        let rendered = render_diagnostic(
                            "glsl",
                            src.as_str(),
                            errors[i].message.as_str(),
                            &labels,
                            &no_notes,
                        );
                        out.append(rendered.as_str());
                        proof {
                            assert(errors@.take(i + 1).drop_last() =~= errors@.take(i as int));
                            assert(errors@.take(i + 1).last() == errors@[i as int]);
                        }
                    }
                    proof {
                        assert(errors@.take(n as int) =~= errors@);
                    }
                },
                _ => {
                    out.append(
                        "failed to process shader: source does not match the reported language",
                    );
                },
            },
            ShaderReflectError::SpirVParse(msg) => {
                out.append("failed to process shader:\n");
                out.append(msg.as_str());
            },
            ShaderReflectError::Validation(v) => match source {
                ProcessedShader::Wgsl(src) => {
                    out.append("failed to process shader: \n");
                    let rendered = render_validation("wgsl", src.as_str(), v);
                    out.append(rendered.as_str());
                },
                ProcessedShader::Glsl(src) => {
                    out.append("failed to process shader: \n");
                    let rendered = render_validation("glsl", src.as_str(), v);
                    out.append(rendered.as_str());
                },
                ProcessedShader::SpirV(_) => {
                    out.append("failed to process shader:\n");
                    out.append(v.message.as_str());
                },
            },
        },
        AsModuleDescriptorError::WgslConversion(msg) => {
            out.append("failed to convert shader to wgsl: \n");
            out.append(msg.as_str());
        },
        AsModuleDescriptorError::SpirVConversion(msg) => {
            out.append("failed to convert shader to spirv: \n");
            out.append(msg.as_str());
        },
    }
    out
}

/// What is reported for each pipeline error: nothing for the retryable
/// conditions, which are silently retried, and a rendered report for each
/// terminal failure.
pub open spec fn error_report_view(error: PipelineCacheError) -> Option<Seq<char>> {
    match error {
        PipelineCacheError::ShaderNotLoaded(_) => None,
        PipelineCacheError::ShaderImportNotYetAvailable => None,
        PipelineCacheError::ProcessShaderError(msg) => Some("failed to process shader: "@ + msg@),
        PipelineCacheError::AsModuleDescriptorError(err, src) => Some(
            shader_error_report_view(src, err),
        ),
        PipelineCacheError::CreateShaderModule(msg) => Some(
            "failed to create shader module: "@ + msg@,
        ),
    }
}

/// The report for a terminal pipeline error, and nothing for a retryable
/// one.
pub fn error_report(error: &PipelineCacheError) -> (r: Option<String>)
    ensures
        match r {
            Some(msg) => error_report_view(*error) == Some(msg@),
            None => error_report_view(*error) is None && error.spec_is_retryable(),
        },
{
    match error {
        PipelineCacheError::ShaderNotLoaded(_) => None,
        PipelineCacheError::ShaderImportNotYetAvailable => None,
        PipelineCacheError::ProcessShaderError(msg) => {
            let mut out = String::new();
            out.append("failed to process shader: ");
            out.append(msg.as_str());
            Some(out)
        },
        PipelineCacheError::AsModuleDescriptorError(err, src) => Some(
            shader_error_report(src, err),
        ),
        PipelineCacheError::CreateShaderModule(msg) => {
            let mut out = String::new();
            out.append("failed to create shader module: ");
            out.append(msg.as_str());
            Some(out)
        },
    }
}

} // verus!
