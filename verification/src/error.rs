//! Failures of a transfer and the texts that describe them.
use crate::text;
use vstd::prelude::*;

verus! {

/// Text of the ERROR packet by which a side that its user has stopped tells the
/// other side so, which then need not wait for timeouts.
pub const CANCEL_MSG: &'static str = "Transfer cancelled";

/// Why a transfer failed.
#[derive(Debug)]
pub enum TftpError {
    /// The system reported a failure; its description.
    Io(String),
    /// The protocol was violated, or the request makes no sense.
    Protocol(String),
    /// The other side answered with an ERROR packet: its code and text.
    Remote(u16, String),
    /// The other side does not answer.
    Timeout,
    /// The user on this side stopped the transfer.
    Cancelled,
}

/// `TftpError` with its texts as sequences of characters.
pub enum ErrorView {
    Io(Seq<char>),
    Protocol(Seq<char>),
    Remote(u16, Seq<char>),
    Timeout,
    Cancelled,
}

impl View for TftpError {
    type V = ErrorView;

    open spec fn view(&self) -> ErrorView {
        match self {
            TftpError::Io(s) => ErrorView::Io(s@),
            TftpError::Protocol(s) => ErrorView::Protocol(s@),
            TftpError::Remote(c, s) => ErrorView::Remote(*c, s@),
            TftpError::Timeout => ErrorView::Timeout,
            TftpError::Cancelled => ErrorView::Cancelled,
        }
    }
}

/// The description of a failure that the user sees.
pub open spec fn error_text(e: ErrorView) -> Seq<char> {
    match e {
        ErrorView::Io(s) => "IO ошибка: "@ + s,
        ErrorView::Protocol(s) => "Ошибка протокола: "@ + s,
        ErrorView::Remote(code, msg) => if code == 0 && msg == CANCEL_MSG@ {
            "Удалённая сторона отменила передачу"@
        } else {
            "Удалённая сторона вернула ошибку "@ + text::dec(code as nat) + ": "@ + msg
        },
        ErrorView::Timeout => "Таймаут: удалённая сторона не отвечает"@,
        ErrorView::Cancelled => "Передача остановлена"@,
    }
}

impl TftpError {
    /// The description of the failure that the user sees.
    pub fn message(&self) -> (r: String)
        ensures
            r@ == error_text(self@),
    {
        match self {
            TftpError::Io(s) => {
                let mut m = "IO ошибка: ".to_owned();
                m.append(s.as_str());
                m
            },
            TftpError::Protocol(s) => {
                let mut m = "Ошибка протокола: ".to_owned();
                m.append(s.as_str());
                m
            },
            TftpError::Remote(code, msg) => {
                if *code == 0 && text::same_text(msg.as_str(), CANCEL_MSG) {
                    "Удалённая сторона отменила передачу".to_owned()
                } else {
                    let mut m = "Удалённая сторона вернула ошибку ".to_owned();
                    text::push_dec(&mut m, *code as u64);
                    m.append(": ");
                    m.append(msg.as_str());
                    m
                }
            },
            TftpError::Timeout => "Таймаут: удалённая сторона не отвечает".to_owned(),
            TftpError::Cancelled => "Передача остановлена".to_owned(),
        }
    }
}

/// A failure of the system, with the path it concerns in its text.
pub fn io_with_path(e: &str, path: &str) -> (r: TftpError)
    ensures
        r@ == ErrorView::Io(path@ + ": "@ + e@),
{
    let mut m = path.to_owned();
    m.append(": ");
    m.append(e);
    TftpError::Io(m)
}

/// A failure of the protocol with the given text.
pub(crate) fn protocol(text: &str) -> (r: TftpError)
    ensures
        r@ == ErrorView::Protocol(text@),
{
    TftpError::Protocol(text.to_owned())
}

/// What the user is told about each failure. A cancellation by the other side is told as
/// such, and any other error of it with its code and text.
pub proof fn law_failures_are_told(s: Seq<char>, code: u16)
    ensures
        error_text(ErrorView::Io(s)) == "IO ошибка: "@ + s,
        error_text(ErrorView::Protocol(s)) == "Ошибка протокола: "@ + s,
        error_text(ErrorView::Remote(0, "Transfer cancelled"@))
            == "Удалённая сторона отменила передачу"@,
        code != 0 || s != "Transfer cancelled"@ ==> error_text(ErrorView::Remote(code, s))
            == "Удалённая сторона вернула ошибку "@ + text::dec(code as nat) + ": "@ + s,
        error_text(ErrorView::Timeout) == "Таймаут: удалённая сторона не отвечает"@,
        error_text(ErrorView::Cancelled) == "Передача остановлена"@,
{
}

} // verus!
