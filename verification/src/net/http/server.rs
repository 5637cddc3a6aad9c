//! How the server goes on with a connection.

use vstd::prelude::*;

verus! {

/// The version of a request.
#[derive(Debug, Clone, Copy, PartialEq, Eq, Structural)]
pub enum HttpVersion {
    Http09,
    Http10,
    Http11,
    Http20,
}

/// What a `Connection` header asks for.
#[derive(Debug, Clone, Copy, PartialEq, Eq, Structural)]
pub enum ConnectionOption {
    /// Keep the connection open.
    KeepAlive,
    /// Close the connection.
    Close,
    /// Something else.
    Other,
}

/// The status that lets a client go on with its request.
pub const CONTINUE: u16 = 100;

/// Whether the options contain this one.
fn has_option(options: &Vec<ConnectionOption>, option: ConnectionOption) -> (found: bool)
    ensures
        found == options@.contains(option),
{
    let mut i: usize = 0;
    while i < options.len()
        invariant
            i <= options@.len(),
            forall|k: int| 0 <= k < i ==> #[trigger] options@[k] != option,
        decreases options@.len() - i,
    {
        if options[i] == option {
            return true;
        }
        i = i + 1;
    }
    false
}

/// The connection can be kept open after a message of this version with this `Connection`
/// header: in the older protocol only if it says so, in the newer one unless it says close.
pub open spec fn keeps_alive(
    version: HttpVersion,
    connection: Option<Seq<ConnectionOption>>,
) -> bool {
    match version {
        HttpVersion::Http10 => connection matches Some(options) && options.contains(
            ConnectionOption::KeepAlive,
        ),
        HttpVersion::Http11 => !(connection matches Some(options) && options.contains(
            ConnectionOption::Close,
        )),
        _ => true,
    }
}

/// What a `Connection` header says, if there is one.
pub open spec fn options_of(connection: Option<Vec<ConnectionOption>>) -> Option<
    Seq<ConnectionOption>,
> {
    match connection {
        Some(options) => Some(options@),
        None => None,
    }
}

/// Whether the connection can be kept open after a message of this version with this header.
pub fn should_keep_alive(version: HttpVersion, connection: &Option<Vec<ConnectionOption>>) -> (keep:
    bool)
    ensures
        keep == keeps_alive(version, options_of(*connection)),
{
    match (version, connection) {
        (HttpVersion::Http10, None) => false,
        (HttpVersion::Http10, Some(options)) => has_option(options, ConnectionOption::KeepAlive),
        (HttpVersion::Http11, Some(options)) => !has_option(options, ConnectionOption::Close),
        _ => true,
    }
}

/// What the server has to know of a request.
pub struct RequestHead {
    /// The version.
    pub version: HttpVersion,
    /// The `Connection` header.
    pub connection: Option<Vec<ConnectionOption>>,
    /// The `Expect` header asks for a status before the body is sent.
    pub expects_continue: bool,
}

/// How the server goes on with a connection.
#[derive(Debug, Clone, Copy, PartialEq, Eq, Structural)]
pub enum WorkerStep {
    /// Read the next request.
    Read,
    /// Ask the handler whether the client may go on, and send the status.
    CheckContinue,
    /// Have the request handled. The response says that the connection is closed if so.
    Handle { close: bool },
    /// Close the connection.
    Close,
}

/// The requests of one connection, one after the other.
pub struct Worker {
    step: WorkerStep,
    keep_alive: bool,
    version: HttpVersion,
}

impl Worker {
    /// What is to be done.
    pub closed spec fn spec_step(&self) -> WorkerStep {
        self.step
    }

    /// The last request, if there was one, allows that the connection is kept open.
    pub closed spec fn request_keeps_alive(&self) -> bool {
        self.keep_alive
    }

    /// The version of the last request.
    pub closed spec fn spec_version(&self) -> HttpVersion {
        self.version
    }

    /// A response says that the connection is closed if the request does not allow to keep it.
    pub open spec fn wf(&self) -> bool {
        self.spec_step() matches WorkerStep::Handle { close } ==> close
            == !self.request_keeps_alive()
    }

    /// A new connection, which is kept open: the first request is to be read.
    pub fn new() -> (worker: Worker)
        ensures
            worker.wf(),
            worker.spec_step() is Read,
            worker.request_keeps_alive(),
    {
        Worker { step: WorkerStep::Read, keep_alive: true, version: HttpVersion::Http11 }
    }

    /// What is to be done.
    pub fn step(&self) -> (step: WorkerStep)
        ensures
            step == self.spec_step(),
    {
        self.step
    }

    /// The client has to be told whether it may go on.
    pub open spec fn must_check(head: RequestHead) -> bool {
        head.version == HttpVersion::Http11 && head.expects_continue
    }

    /// How the server goes on after a request was read, or could not be read.
    pub open spec fn request_taken(after: Worker, head: Option<RequestHead>) -> bool {
        match head {
            None => after.spec_step() is Close,
            Some(head) => {
                &&& after.spec_version() == head.version
                &&& after.request_keeps_alive() == keeps_alive(
                    head.version,
                    options_of(head.connection),
                )
                &&& after.spec_step() == (if Self::must_check(head) {
                    WorkerStep::CheckContinue
                } else {
                    WorkerStep::Handle { close: !after.request_keeps_alive() }
                })
            },
        }
    }

    /// How the server goes on after the client was told, or could not be told, whether it may.
    pub open spec fn expectation_answered(
        before: Worker,
        after: Worker,
        sent: bool,
        status: u16,
    ) -> bool {
        &&& after.spec_version() == before.spec_version()
        &&& after.request_keeps_alive() == before.request_keeps_alive()
        &&& after.spec_step() == (if sent && status == CONTINUE {
            WorkerStep::Handle { close: !before.request_keeps_alive() }
        } else {
            WorkerStep::Close
        })
    }

    /// How the server goes on after a request was handled.
    pub open spec fn request_handled(
        before: Worker,
        after: Worker,
        connection: Option<Vec<ConnectionOption>>,
    ) -> bool {
        &&& after.spec_version() == before.spec_version()
        &&& after.spec_step() == (if before.request_keeps_alive() && keeps_alive(
            before.spec_version(),
            options_of(connection),
        ) {
            WorkerStep::Read
        } else {
            WorkerStep::Close
        })
    }

    /// A request was read, or could not be read: then the connection is closed.
    pub fn request_read(&mut self, head: Option<RequestHead>)
        requires
            old(self).wf(),
            old(self).spec_step() is Read,
        ensures
            final(self).wf(),
            Self::request_taken(*final(self), head),
            head matches Some(head) ==> {
                let expected = head.version == HttpVersion::Http11 && head.expects_continue;
                &&& expected ==> final(self).spec_step() is CheckContinue
                &&& !expected ==> final(self).spec_step() is Handle
            },
    {
        match head {
            None => {
                self.step = WorkerStep::Close;
            },
            Some(head) => {
                self.version = head.version;
                self.keep_alive = should_keep_alive(head.version, &head.connection);
                if head.version == HttpVersion::Http11 && head.expects_continue {
                    self.step = WorkerStep::CheckContinue;
                } else {
                    self.step = WorkerStep::Handle { close: !self.keep_alive };
                }
            },
        }
    }

    /// The handler has decided on a status, and it was sent or not. The request is handled only
    /// if it was, and if the client may go on.
    pub fn handle_expect(&mut self, sent: bool, status: u16)
        requires
            old(self).wf(),
            old(self).spec_step() is CheckContinue,
        ensures
            final(self).wf(),
            Self::expectation_answered(*old(self), *final(self), sent, status),
    {
        if sent && status == CONTINUE {
            self.step = WorkerStep::Handle { close: !self.keep_alive };
        } else {
            self.step = WorkerStep::Close;
        }
    }

    /// The request was handled, with this `Connection` header in the response. If the request
    /// allows to keep the connection open, the response has to allow it, too; if it does not,
    /// the response cannot change that.
    pub fn handled(&mut self, connection: &Option<Vec<ConnectionOption>>)
        requires
            old(self).wf(),
            old(self).spec_step() is Handle,
        ensures
            final(self).wf(),
            Self::request_handled(*old(self), *final(self), *connection),
    {
        if self.keep_alive {
            self.keep_alive = should_keep_alive(self.version, connection);
        }
        if self.keep_alive {
            self.step = WorkerStep::Read;
        } else {
            self.step = WorkerStep::Close;
        }
    }
}

/// A message that says close ends the connection, in both protocols, unless the older one is also
/// asked to keep it.
pub proof fn close_ends_the_connection(version: HttpVersion, options: Seq<ConnectionOption>)
    requires
        options.contains(ConnectionOption::Close),
        version == HttpVersion::Http11 || (version == HttpVersion::Http10 && !options.contains(
            ConnectionOption::KeepAlive,
        )),
    ensures
        !keeps_alive(version, Some(options)),
{
}

/// The header asks for this.
pub open spec fn asks_for(
    connection: Option<Vec<ConnectionOption>>,
    option: ConnectionOption,
) -> bool {
    connection matches Some(options) && exists|i: int|
        0 <= i < options@.len() && #[trigger] options@[i] == option
}

/// A client that expects a status before it sends the body is told one if it speaks HTTP/1.1,
/// whatever else its request says. Every other request is handled at once.
pub proof fn every_expectation_is_answered(after: Worker, head: RequestHead)
    requires
        Worker::request_taken(after, Some(head)),
    ensures
        head.version == HttpVersion::Http11 && head.expects_continue ==> after.spec_step()
            == WorkerStep::CheckContinue,
        head.version != HttpVersion::Http11 || !head.expects_continue ==> after.spec_step() is Handle,
{
}

/// Whether a client is told a status first does not depend on what it says about the connection.
pub proof fn connection_header_does_not_matter_to_the_expectation(
    first: Worker,
    second: Worker,
    head: RequestHead,
    other: RequestHead,
)
    requires
        head.version == other.version,
        head.expects_continue == other.expects_continue,
        Worker::request_taken(first, Some(head)),
        Worker::request_taken(second, Some(other)),
    ensures
        first.spec_step() is CheckContinue <==> second.spec_step() is CheckContinue,
        first.spec_step() is Handle <==> second.spec_step() is Handle,
{
}

/// A request whose client expects a status is handled only if the status was sent and says to go
/// on; else the connection is closed without it.
pub proof fn only_who_may_go_on_is_handled(
    asked: Worker,
    answered: Worker,
    head: RequestHead,
    sent: bool,
    status: u16,
)
    requires
        Worker::request_taken(asked, Some(head)),
        asked.spec_step() is CheckContinue,
        Worker::expectation_answered(asked, answered, sent, status),
    ensures
        sent && status == 100 ==> answered.spec_step() is Handle,
        !sent || status != 100 ==> answered.spec_step() is Close,
{
}

/// The response says that the connection is closed if and only if the request does not let it
/// open, no matter whether the client expected a status: with HTTP/1.1 if it asks to close, with
/// HTTP/1.0 if it does not ask to keep alive, and else never.
pub proof fn response_says_whether_the_connection_is_closed(
    read: Worker,
    answered: Worker,
    head: RequestHead,
)
    requires
        Worker::request_taken(read, Some(head)),
        if read.spec_step() is CheckContinue {
            Worker::expectation_answered(read, answered, true, 100)
        } else {
            answered == read
        },
    ensures
        answered.spec_step() matches WorkerStep::Handle { close } && close == (match head.version {
            HttpVersion::Http11 => asks_for(head.connection, ConnectionOption::Close),
            HttpVersion::Http10 => !asks_for(head.connection, ConnectionOption::KeepAlive),
            _ => false,
        }),
{
}

/// Both sides have to let the connection open for another request to be read on it: with HTTP/1.1
/// neither of them may ask to close it, with HTTP/1.0 both of them have to ask to keep it alive.
pub proof fn connection_stays_open_if_both_sides_agree(
    read: Worker,
    answered: Worker,
    after: Worker,
    head: RequestHead,
    response: Option<Vec<ConnectionOption>>,
)
    requires
        Worker::request_taken(read, Some(head)),
        if read.spec_step() is CheckContinue {
            Worker::expectation_answered(read, answered, true, 100)
        } else {
            answered == read
        },
        Worker::request_handled(answered, after, response),
    ensures
        after.spec_step() is Read || after.spec_step() is Close,
        after.spec_version() == head.version,
        head.version == HttpVersion::Http11 ==> (after.spec_step() is Read <==> !asks_for(
            head.connection,
            ConnectionOption::Close,
        ) && !asks_for(response, ConnectionOption::Close)),
        head.version == HttpVersion::Http10 ==> (after.spec_step() is Read <==> asks_for(
            head.connection,
            ConnectionOption::KeepAlive,
        ) && asks_for(response, ConnectionOption::KeepAlive)),
        head.version != HttpVersion::Http10 && head.version != HttpVersion::Http11
            ==> after.spec_step() is Read,
{
}

} // verus!
