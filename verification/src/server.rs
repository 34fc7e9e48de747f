//! The settings of a server and how the command line sets them.

use vstd::prelude::*;
use vstd::string::StringExecFns;

use crate::decimal::{number_of, parse_number};
use crate::error::Error;
use crate::text::{chars_of, same_text};

verus! {

/// Where a server listens and where it keeps its files.
#[derive(Debug)]
pub struct Server {
    /// The directory to work in; the current one if `None`.
    pub cwd: Option<String>,
    pub host: String,
    pub port: u32,
}

/// What a `Server` holds.
pub struct ServerView {
    pub cwd: Option<Seq<char>>,
    pub host: Seq<char>,
    pub port: u32,
}

impl View for Server {
    type V = ServerView;

    open spec fn view(&self) -> ServerView {
        ServerView {
            cwd: match self.cwd {
                Some(dir) => Some(dir@),
                None => None,
            },
            host: self.host@,
            port: self.port,
        }
    }
}

impl Clone for Server {
    fn clone(&self) -> (r: Server)
        ensures
            r@ == self@,
    {
        Server {
            cwd: match &self.cwd {
                Some(dir) => Some(dir.clone()),
                None => None,
            },
            host: self.host.clone(),
            port: self.port,
        }
    }
}

impl ServerView {
    /// The settings of a server that was told nothing: `127.0.0.1:4221`, in the
    /// current directory.
    pub open spec fn initial() -> ServerView {
        ServerView { cwd: None, host: "127.0.0.1"@, port: 4221 }
    }

    /// The settings after the argument `flag` and the argument `value` behind it
    /// were read: `--directory`, `--host` and `--port` set what they name, any
    /// other argument sets nothing. Fails if the value of `--port` is no number
    /// that fits a `u32`.
    pub open spec fn set(self, flag: Seq<char>, value: Seq<char>) -> Result<ServerView, Error> {
        if flag == "--directory"@ {
            Ok(ServerView { cwd: Some(value), host: self.host, port: self.port })
        } else if flag == "--host"@ {
            Ok(ServerView { cwd: self.cwd, host: value, port: self.port })
        } else if flag == "--port"@ {
            match number_of(value, u32::MAX as nat) {
                Some(port) => Ok(ServerView { cwd: self.cwd, host: self.host, port: port as u32 }),
                None => Err(Error::InvalidPort),
            }
        } else {
            Ok(self)
        }
    }

    /// The settings after the arguments `args` were read from position `from`
    /// on: every argument but the last is read as a flag with the argument
    /// behind it as its value. The first failure ends the reading.
    pub open spec fn configured(self, args: Seq<Seq<char>>, from: int) -> Result<ServerView, Error>
        decreases args.len() - from,
    {
        if from < 0 || from + 1 >= args.len() {
            Ok(self)
        } else {
            match self.set(args[from], args[from + 1]) {
                Ok(next) => next.configured(args, from + 1),
                Err(e) => Err(e),
            }
        }
    }
}

/// The texts of `args`.
pub open spec fn arguments(args: Seq<String>) -> Seq<Seq<char>> {
    Seq::new(args.len(), |i: int| args[i]@)
}

impl Server {
    /// The settings that the command line `args` asks for, the name of the
    /// program included.
    pub fn new(args: &[String]) -> (r: Result<Server, Error>)
        ensures
            match r {
                Ok(server) => ServerView::initial().configured(arguments(args@), 0) == Ok::<
                    _,
                    Error,
                >(server@),
                Err(e) => ServerView::initial().configured(arguments(args@), 0) == Err::<
                    ServerView,
                    _,
                >(e),
            },
    {
        let mut server = Server { cwd: None, host: String::from_str("127.0.0.1"), port: 4221 };
        let ghost all = arguments(args@);
        let pairs: usize = if args.len() > 0 {
            args.len() - 1
        } else {
            0
        };
        let mut i: usize = 0;
        while i < pairs
            invariant
                i <= pairs,
                pairs + 1 == args@.len() || (pairs == 0 && args@.len() == 0),
                all == arguments(args@),
                ServerView::initial().configured(all, 0) == server@.configured(all, i as int),
            decreases pairs - i,
        {
            let flag = args[i].as_str();
            let value = args[i + 1].as_str();
            if same_text(flag, "--directory") {
                server.cwd = Some(String::from_str(value));
            } else if same_text(flag, "--host") {
                server.host = String::from_str(value);
            } else if same_text(flag, "--port") {
                let digits = chars_of(value);
                match parse_number(digits.as_slice(), u32::MAX as u64) {
                    Some(port) => {
                        server.port = port as u32;
                    },
                    None => {
                        return Err(Error::InvalidPort);
                    },
                }
            }
            i += 1;
        }
        Ok(server)
    }

    /// The address to listen on: the host, a colon and the port.
    pub fn address(&self) -> (r: String)
        ensures
            r@ == self.host@ + ":"@ + crate::decimal::decimal(self.port as nat),
    {
        let mut r = self.host.clone();
        r.append(":");
        let port = crate::decimal::format_number(self.port as u64);
        r.append(port.as_str());
        r
    }
}

} // verus!
