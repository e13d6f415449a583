//! A log file as the viewer holds it: its name, format and parsed entries.
use vstd::prelude::*;
use crate::entry::{entries_view, EntryView, LogEntry};
use crate::parse::{counts_fit, detect_format, format_of, parse_all, parsed, LogFormat};

verus! {

/// A loaded log file.
pub struct LogFile {
    /// The path shown for the file (relative to the project root, or its
    /// file name).
    pub display_name: String,
    pub format: LogFormat,
    pub entries: Vec<LogEntry>,
}

/// The contents of a loaded log file as plain values.
pub struct FileView {
    pub display_name: Seq<char>,
    pub format: LogFormat,
    pub entries: Seq<EntryView>,
}

impl View for LogFile {
    type V = FileView;

    open spec fn view(&self) -> FileView {
        FileView {
            display_name: self.display_name@,
            format: self.format,
            entries: entries_view(self.entries@),
        }
    }
}

/// The short label shown for a format.
pub open spec fn format_label_of(f: LogFormat) -> Seq<char> {
    match f {
        LogFormat::SpolsRuntime => "spols/runtime"@,
        LogFormat::SpolsDatabase => "spols/db"@,
        LogFormat::Laravel => "laravel"@,
        LogFormat::Generic => "generic"@,
    }
}

impl LogFile {
    /// A log file read from `content`, its format told from its file name
    /// `file_name` and its first line.
    pub fn from_content(display_name: String, file_name: &str, content: &str) -> (r: LogFile)
        requires
            counts_fit(content@, format_of(file_name@, content@)),
        ensures
            r@.display_name == display_name@,
            r@.format == format_of(file_name@, content@),
            r@.entries == parsed(content@, format_of(file_name@, content@)),
    {
        let format = detect_format(file_name, content);
        let entries = parse_all(content, &format);
        LogFile { display_name, format, entries }
    }

    /// The short label of the file's format.
    pub fn format_label(&self) -> (r: &'static str)
        ensures
            r@ == format_label_of(self.format),
    {
        match self.format {
            LogFormat::SpolsRuntime => "spols/runtime",
            LogFormat::SpolsDatabase => "spols/db",
            LogFormat::Laravel => "laravel",
            LogFormat::Generic => "generic",
        }
    }

    /// Reads the entries again from the file's new text, in the same format.
    pub fn reload(&mut self, content: &str)
        requires
            counts_fit(content@, old(self)@.format),
        ensures
            final(self)@.display_name == old(self)@.display_name,
            final(self)@.format == old(self)@.format,
            final(self)@.entries == parsed(content@, old(self)@.format),
    {
        self.entries = parse_all(content, &self.format);
    }
}

} // verus!
