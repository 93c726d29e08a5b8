//! The progress messages that rendering reports.
use vstd::prelude::*;

verus! {

/// A step of rendering.
#[derive(Clone, Copy, Debug, PartialEq, Eq, Structural)]
pub enum StatusMessage {
    ReadingMarkdown,
    ConvertingToHtml,
    ApplyingTemplate,
    ConvertingHtmlToPdf,
    AttachingMdToPdf,
}

/// A source of the messages that report the steps of rendering.
pub trait MessageFetcher {
    /// The message that reports `status`.
    fn get_message(&mut self, status: StatusMessage) -> &'static str;
}

/// The program's own messages.
#[derive(Clone, Copy, Debug, PartialEq, Eq, Structural)]
pub struct StatusMessageProvider;

/// The program's message for a step of rendering.
pub open spec fn status_text(status: StatusMessage) -> Seq<char> {
    match status {
        StatusMessage::ReadingMarkdown => "Reading Markdown..."@,
        StatusMessage::ConvertingToHtml => "Converting to HTML..."@,
        StatusMessage::ApplyingTemplate => "Applying template..."@,
        StatusMessage::ConvertingHtmlToPdf => "Converting HTML to PDF..."@,
        StatusMessage::AttachingMdToPdf => "Attaching MD to PDF..."@,
    }
}

impl MessageFetcher for StatusMessageProvider {
    fn get_message(&mut self, status: StatusMessage) -> (m: &'static str)
        ensures
            m@ == status_text(status),
    {
        match status {
            StatusMessage::ReadingMarkdown => "Reading Markdown...",
            StatusMessage::ConvertingToHtml => "Converting to HTML...",
            StatusMessage::ApplyingTemplate => "Applying template...",
            StatusMessage::ConvertingHtmlToPdf => "Converting HTML to PDF...",
            StatusMessage::AttachingMdToPdf => "Attaching MD to PDF...",
        }
    }
}

/// The source of the progress messages: the program's own.
pub fn get_message_provider() -> (p: StatusMessageProvider)
    ensures
        p == StatusMessageProvider,
{
    StatusMessageProvider
}

}
