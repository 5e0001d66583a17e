//! Setting the finish reason of choices that emitted tool calls.
//!
//! Each chunk of a jailed stream goes through [`FinishFixer::fix`]; when the
//! stream ends, [`FinishFixer::finish`] gives the chunk that is still owed.

use crate::chat_types::{
    Annotated, AnnotatedView, ChatChoiceStream, ChatChoiceStreamView,
    CreateChatCompletionStreamResponse, CreateChatCompletionStreamResponseView, FinishReason,
    NvCreateChatCompletionStreamResponse, NvCreateChatCompletionStreamResponseView,
};
use crate::copy::{no_items, push_item, Duplicate};
use crate::jail_stream::{
    has_index, make_terminal_choices, metadata_of, note_index, noted, take_metadata,
    terminal_choices, StreamMetadata, StreamMetadataView,
};
use vstd::prelude::*;

verus! {

/// What is remembered of the choices of a stream.
#[derive(Debug, PartialEq, Eq)]
pub struct FinishFixer {
    /// The choices that emitted tool calls.
    pub called: Vec<u32>,
    /// The choices that gave a finish reason.
    pub finished: Vec<u32>,
    /// The last chunk with data.
    pub last_inner: Option<CreateChatCompletionStreamResponse>,
    /// The annotations of the last chunk with data.
    pub last_metadata: StreamMetadata,
}

/// The content of a [`FinishFixer`].
#[verifier::ext_equal]
pub struct FinishFixerView {
    pub called: Seq<u32>,
    pub finished: Seq<u32>,
    pub last_inner: Option<CreateChatCompletionStreamResponseView>,
    pub last_metadata: StreamMetadataView,
}

impl DeepView for FinishFixer {
    type V = FinishFixerView;

    open spec fn deep_view(&self) -> FinishFixerView {
        FinishFixerView {
            called: self.called.deep_view(),
            finished: self.finished.deep_view(),
            last_inner: self.last_inner.deep_view(),
            last_metadata: self.last_metadata.deep_view(),
        }
    }
}

/// The choices that emitted tool calls, after more choices.
pub open spec fn called_after(called: Seq<u32>, choices: Seq<ChatChoiceStreamView>) -> Seq<u32>
    decreases choices.len(),
{
    if choices.len() == 0 {
        called
    } else {
        let n = choices.len() - 1;
        let front = called_after(called, choices.subrange(0, n));
        if choices[n].delta.tool_calls is Some {
            noted(front, choices[n].index)
        } else {
            front
        }
    }
}

/// The choices that gave a finish reason, after more choices.
pub open spec fn finished_after(
    finished: Seq<u32>,
    choices: Seq<ChatChoiceStreamView>,
) -> Seq<u32>
    decreases choices.len(),
{
    if choices.len() == 0 {
        finished
    } else {
        let n = choices.len() - 1;
        let front = finished_after(finished, choices.subrange(0, n));
        if choices[n].finish_reason is Some {
            noted(front, choices[n].index)
        } else {
            front
        }
    }
}

/// A choice that emitted tool calls and stopped, stopped for its tool calls;
/// other finish reasons stay.
pub open spec fn choice_fixed(
    choice: ChatChoiceStreamView,
    called: Seq<u32>,
) -> ChatChoiceStreamView {
    if choice.finish_reason == Some(FinishReason::Stop) && called.contains(choice.index) {
        ChatChoiceStreamView { finish_reason: Some(FinishReason::ToolCalls), ..choice }
    } else {
        choice
    }
}

/// All choices of a chunk.
pub open spec fn choices_fixed(choices: Seq<ChatChoiceStreamView>, called: Seq<u32>) -> Seq<
    ChatChoiceStreamView,
> {
    Seq::new(choices.len(), |i: int| choice_fixed(choices[i], called))
}

/// The chunk with its choices fixed.
pub open spec fn response_fixed(response: AnnotatedView, called: Seq<u32>) -> AnnotatedView {
    match response.data {
        None => response,
        Some(data) => AnnotatedView {
            data: Some(
                NvCreateChatCompletionStreamResponseView {
                    inner: CreateChatCompletionStreamResponseView {
                        choices: choices_fixed(data.inner.choices, called),
                        ..data.inner
                    },
                    ..data
                },
            ),
            ..response
        },
    }
}

/// The choices that emitted tool calls and gave no finish reason.
pub open spec fn unfinished(called: Seq<u32>, finished: Seq<u32>) -> Seq<u32>
    decreases called.len(),
{
    if called.len() == 0 {
        Seq::empty()
    } else {
        let n = called.len() - 1;
        let front = unfinished(called.subrange(0, n), finished);
        if finished.contains(called[n]) {
            front
        } else {
            front.push(called[n])
        }
    }
}

impl FinishFixerView {
    /// Before any chunk.
    pub open spec fn initial() -> Self {
        FinishFixerView {
            called: Seq::empty(),
            finished: Seq::empty(),
            last_inner: None,
            last_metadata: StreamMetadataView { id: None, event: None, comment: None },
        }
    }

    /// After one more chunk.
    pub open spec fn after(self, response: AnnotatedView) -> Self {
        match response.data {
            None => self,
            Some(data) => {
                let called = called_after(self.called, data.inner.choices);
                let fixed = response_fixed(response, called).data->0;
                FinishFixerView {
                    called,
                    finished: finished_after(self.finished, fixed.inner.choices),
                    last_inner: Some(fixed.inner),
                    last_metadata: metadata_of(response),
                }
            },
        }
    }

    /// The chunk that is owed at the end of the stream: choices that emitted
    /// tool calls and gave no finish reason end with one.
    pub open spec fn owed(self) -> Option<AnnotatedView> {
        let missing = unfinished(self.called, self.finished);
        match self.last_inner {
            None => None,
            Some(inner) => if missing.len() == 0 {
                None
            } else {
                Some(
                    AnnotatedView {
                        data: Some(
                            NvCreateChatCompletionStreamResponseView {
                                inner: CreateChatCompletionStreamResponseView {
                                    choices: terminal_choices(missing),
                                    usage: None,
                                    ..inner
                                },
                                nvext: None,
                            },
                        ),
                        id: self.last_metadata.id,
                        event: self.last_metadata.event,
                        comment: self.last_metadata.comment,
                        error: None,
                    },
                )
            },
        }
    }
}

impl FinishFixer {
    /// Before any chunk.
    pub fn new() -> (r: Self)
        ensures
            r.deep_view() == FinishFixerView::initial(),
    {
        let r: FinishFixer = FinishFixer {
            called: no_items(),
            finished: no_items(),
            last_inner: None,
            last_metadata: StreamMetadata { id: None, event: None, comment: None },
        };
        assert(r.deep_view() =~= FinishFixerView::initial());
        r
    }

    /// Notes which choices emit tool calls.
    fn note_calls(&mut self, choices: &Vec<ChatChoiceStream>)
        ensures
            final(self).deep_view() == (FinishFixerView {
                called: called_after(old(self).deep_view().called, choices.deep_view()),
                ..old(self).deep_view()
            }),
    {
        let ghost all = choices.deep_view();
        let ghost before = self.deep_view();
        let mut i: usize = 0;
        assert(all.subrange(0, 0) =~= Seq::empty());
        while i < choices.len()
            invariant
                all == choices.deep_view(),
                i <= choices@.len(),
                self.deep_view() == (FinishFixerView {
                    called: called_after(before.called, all.subrange(0, i as int)),
                    ..before
                }),
            decreases choices@.len() - i,
        {
            let ghost next = all.subrange(0, i + 1);
            assert(next.subrange(0, next.len() - 1) =~= all.subrange(0, i as int));
            assert(next[next.len() - 1] == choices@[i as int].deep_view());
            if choices[i].delta.tool_calls.is_some() {
                note_index(&mut self.called, choices[i].index);
            }
            i += 1;
        }
        assert(all.subrange(0, all.len() as int) =~= all);
    }

    /// Notes which choices give a finish reason.
    fn note_finishes(&mut self, choices: &Vec<ChatChoiceStream>)
        ensures
            final(self).deep_view() == (FinishFixerView {
                finished: finished_after(old(self).deep_view().finished, choices.deep_view()),
                ..old(self).deep_view()
            }),
    {
        let ghost all = choices.deep_view();
        let ghost before = self.deep_view();
        let mut i: usize = 0;
        assert(all.subrange(0, 0) =~= Seq::empty());
        while i < choices.len()
            invariant
                all == choices.deep_view(),
                i <= choices@.len(),
                self.deep_view() == (FinishFixerView {
                    finished: finished_after(before.finished, all.subrange(0, i as int)),
                    ..before
                }),
            decreases choices@.len() - i,
        {
            let ghost next = all.subrange(0, i + 1);
            assert(next.subrange(0, next.len() - 1) =~= all.subrange(0, i as int));
            assert(next[next.len() - 1] == choices@[i as int].deep_view());
            if choices[i].finish_reason.is_some() {
                note_index(&mut self.finished, choices[i].index);
            }
            i += 1;
        }
        assert(all.subrange(0, all.len() as int) =~= all);
    }

    /// The choices of a chunk, fixed.
    fn fix_choices(&self, choices: &Vec<ChatChoiceStream>) -> (r: Vec<ChatChoiceStream>)
        ensures
            r.deep_view() == choices_fixed(choices.deep_view(), self.deep_view().called),
    {
        let mut out: Vec<ChatChoiceStream> = Vec::new();
        let mut i: usize = 0;
        assert(self.called.deep_view() =~= self.called@);
        while i < choices.len()
            invariant
                self.called.deep_view() == self.called@,
                i <= choices@.len(),
                out@.len() == i,
                forall|k: int|
                    0 <= k < i ==> (#[trigger] out@[k]).deep_view() == choice_fixed(
                        choices@[k].deep_view(),
                        self.called@,
                    ),
            decreases choices@.len() - i,
        {
            let mut choice: ChatChoiceStream = choices[i].duplicate();
            match choice.finish_reason {
                Some(FinishReason::Stop) => {
                    if has_index(&self.called, choice.index) {
                        choice.finish_reason = Some(FinishReason::ToolCalls);
                    }
                },
                _ => {},
            }
            out.push(choice);
            i += 1;
        }
        assert(out.deep_view() =~= choices_fixed(choices.deep_view(), self.deep_view().called));
        out
    }

    /// Sets the finish reasons of a chunk.
    ///
    /// Whenever a choice emitted tool calls, a `Stop` becomes `ToolCalls`,
    /// whatever the tool choice was; `Length` and `ContentFilter` stay.
    pub fn fix(&mut self, response: Annotated) -> (r: Annotated)
        ensures
            r.deep_view() == response_fixed(
                response.deep_view(),
                final(self).deep_view().called,
            ),
            final(self).deep_view() == old(self).deep_view().after(response.deep_view()),
    {
        let metadata: StreamMetadata = take_metadata(&response);
        match response.data {
            None => response,
            Some(data) => {
                self.note_calls(&data.inner.choices);
                let choices: Vec<ChatChoiceStream> = self.fix_choices(&data.inner.choices);
                self.note_finishes(&choices);
                let inner: CreateChatCompletionStreamResponse = CreateChatCompletionStreamResponse {
                    id: data.inner.id,
                    object: data.inner.object,
                    created: data.inner.created,
                    model: data.inner.model,
                    choices,
                    usage: data.inner.usage,
                    service_tier: data.inner.service_tier,
                    system_fingerprint: data.inner.system_fingerprint,
                };
                self.last_inner = Some(inner.duplicate());
                self.last_metadata = metadata;
                Annotated {
                    data: Some(
                        NvCreateChatCompletionStreamResponse { inner, nvext: data.nvext },
                    ),
                    id: response.id,
                    event: response.event,
                    comment: response.comment,
                    error: response.error,
                }
            },
        }
    }

    /// The choices that emitted tool calls and gave no finish reason.
    fn find_unfinished(&self) -> (r: Vec<u32>)
        ensures
            r.deep_view() == unfinished(self.deep_view().called, self.deep_view().finished),
    {
        let ghost all = self.called.deep_view();
        let mut out: Vec<u32> = no_items();
        let mut i: usize = 0;
        assert(all.subrange(0, 0) =~= Seq::empty());
        assert(self.finished.deep_view() =~= self.finished@);
        while i < self.called.len()
            invariant
                all == self.called.deep_view(),
                self.finished.deep_view() == self.finished@,
                i <= self.called@.len(),
                out.deep_view() == unfinished(
                    all.subrange(0, i as int),
                    self.deep_view().finished,
                ),
            decreases self.called@.len() - i,
        {
            let ghost next = all.subrange(0, i + 1);
            assert(next.subrange(0, next.len() - 1) =~= all.subrange(0, i as int));
            if !has_index(&self.finished, self.called[i]) {
                push_item(&mut out, self.called[i]);
            }
            i += 1;
        }
        assert(all.subrange(0, all.len() as int) =~= all);
        out
    }

    /// The chunk that is owed at the end of the stream.
    ///
    /// Only choices that gave no finish reason get one, so that none gets two.
    pub fn finish(&self) -> (r: Option<Annotated>)
        ensures
            r.deep_view() == self.deep_view().owed(),
    {
        let missing: Vec<u32> = self.find_unfinished();
        match &self.last_inner {
            None => None,
            Some(inner) => {
                if missing.len() == 0 {
                    return None;
                }
                Some(
                    Annotated {
                        data: Some(
                            NvCreateChatCompletionStreamResponse {
                                inner: CreateChatCompletionStreamResponse {
                                    id: inner.id.clone(),
                                    object: inner.object.clone(),
                                    created: inner.created,
                                    model: inner.model.clone(),
                                    choices: make_terminal_choices(&missing),
                                    usage: None,
                                    service_tier: inner.service_tier,
                                    system_fingerprint: inner.system_fingerprint.duplicate(),
                                },
                                nvext: None,
                            },
                        ),
                        id: self.last_metadata.id.duplicate(),
                        event: self.last_metadata.event.duplicate(),
                        comment: self.last_metadata.comment.duplicate(),
                        error: None,
                    },
                )
            },
        }
    }
}

} // verus!
