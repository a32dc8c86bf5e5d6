use std::collections::HashMap;
use vstd::prelude::*;

use crate::error::ParseError;
use crate::messages::{MessageType, StoreMessage};
use crate::order::{self, Order};
use crate::stock::Stock;
use crate::text;

verus! {

broadcast use vstd::std_specs::hash::group_hash_axioms;

/// An order given to a store on its standard input.
#[derive(Debug, PartialEq, Eq)]
pub enum Command {
    /// Shut the whole program down.
    Shutdown,
    /// Bring the network up.
    NetUp,
    /// Bring the network down.
    NetDown,
    /// Sell an order from the local stock.
    Sell(Order),
    /// Sell the orders of a file, one per line.
    SellFromFile(String),
    /// Add stock to the store.
    AddStock(Order),
}

/// A command as values.
pub enum CommandView {
    Shutdown,
    NetUp,
    NetDown,
    Sell(u64, u64),
    SellFromFile(Seq<char>),
    AddStock(u64, u64),
}

impl View for Command {
    type V = CommandView;

    open spec fn view(&self) -> CommandView {
        match self {
            Command::Shutdown => CommandView::Shutdown,
            Command::NetUp => CommandView::NetUp,
            Command::NetDown => CommandView::NetDown,
            Command::Sell(o) => CommandView::Sell(o.product(), o.quantity()),
            Command::SellFromFile(f) => CommandView::SellFromFile(f@),
            Command::AddStock(o) => CommandView::AddStock(o.product(), o.quantity()),
        }
    }
}

/// What `parse_file` gives: the path without surrounding white space, which must not be empty.
pub open spec fn parse_path(s: Seq<char>) -> Result<Seq<char>, ParseError> {
    if text::trim(s).len() == 0 {
        Err(ParseError::MissingPath)
    } else {
        Ok(text::trim(s))
    }
}

/// What `Command::from_str` gives for `s`: its first character after leading white space
/// names the command, in either case: `S` shutdown, `U` network up, `D` network down,
/// `O <order>` sell an order, `F <path>` sell the orders of a file, `A <order>` add stock.
pub open spec fn parse_command(s: Seq<char>) -> Result<CommandView, ParseError> {
    let clean = text::trim_start(s);
    if clean.len() == 0 {
        Err(ParseError::EmptyCommand)
    } else {
        let c = clean[0];
        let rest = clean.drop_first();
        if c == 'S' || c == 's' {
            Ok(CommandView::Shutdown)
        } else if c == 'U' || c == 'u' {
            Ok(CommandView::NetUp)
        } else if c == 'D' || c == 'd' {
            Ok(CommandView::NetDown)
        } else if c == 'O' || c == 'o' {
            match order::parse_order(rest) {
                Ok((p, q)) => Ok(CommandView::Sell(p, q)),
                Err(e) => Err(e),
            }
        } else if c == 'F' || c == 'f' {
            match parse_path(rest) {
                Ok(path) => Ok(CommandView::SellFromFile(path)),
                Err(e) => Err(e),
            }
        } else if c == 'A' || c == 'a' {
            match order::parse_order(rest) {
                Ok((p, q)) => Ok(CommandView::AddStock(p, q)),
                Err(e) => Err(e),
            }
        } else {
            Err(ParseError::UnknownCommand)
        }
    }
}

/// The path of a file to read orders from: the text without surrounding white space,
/// which must not be empty.
pub fn parse_file(s: &str) -> (r: Result<String, ParseError>)
    ensures
        match r {
            Ok(p) => parse_path(s@) == Ok::<Seq<char>, ParseError>(p@),
            Err(e) => parse_path(s@) == Err::<Seq<char>, ParseError>(e),
        },
{
    let chars = text::chars_of(s);
    parse_path_chars(&chars)
}

fn parse_path_chars(chars: &Vec<char>) -> (r: Result<String, ParseError>)
    ensures
        match r {
            Ok(p) => parse_path(chars@) == Ok::<Seq<char>, ParseError>(p@),
            Err(e) => parse_path(chars@) == Err::<Seq<char>, ParseError>(e),
        },
{
    let trimmed = text::trim_chars(chars);
    if trimmed.len() == 0 {
        Err(ParseError::MissingPath)
    } else {
        Ok(text::string_of(&trimmed))
    }
}

impl Command {
    /// Reads a command from a line of input.
    pub fn from_str(s: &str) -> (r: Result<Command, ParseError>)
        ensures
            match r {
                Ok(c) => parse_command(s@) == Ok::<CommandView, ParseError>(c@),
                Err(e) => parse_command(s@) == Err::<CommandView, ParseError>(e),
            },
    {
        let chars = text::chars_of(s);
        let clean = text::trim_start_chars(&chars);
        if clean.len() == 0 {
            return Err(ParseError::EmptyCommand);
        }
        let c = clean[0];
        let rest = text::slice_chars(&clean, 1, clean.len());
        proof {
            assert(rest@ =~= clean@.drop_first());
        }
        if c == 'S' || c == 's' {
            Ok(Command::Shutdown)
        } else if c == 'U' || c == 'u' {
            Ok(Command::NetUp)
        } else if c == 'D' || c == 'd' {
            Ok(Command::NetDown)
        } else if c == 'O' || c == 'o' {
            match Order::parse_chars(&rest) {
                Ok(o) => Ok(Command::Sell(o)),
                Err(e) => Err(e),
            }
        } else if c == 'F' || c == 'f' {
            match parse_path_chars(&rest) {
                Ok(p) => Ok(Command::SellFromFile(p)),
                Err(e) => Err(e),
            }
        } else if c == 'A' || c == 'a' {
            match Order::parse_chars(&rest) {
                Ok(o) => Ok(Command::AddStock(o)),
                Err(e) => Err(e),
            }
        } else {
            Err(ParseError::UnknownCommand)
        }
    }
}

/// The message that sells orders from the store's own stock.
pub fn local_request_message(orders: Vec<Order>) -> (m: StoreMessage)
    ensures
        m@.message_type == MessageType::LocalRequest,
        m@.new_stock is None,
        m@.transactions is None,
        m@.orders == Some(orders@),
{
    StoreMessage {
        message_type: MessageType::LocalRequest,
        new_stock: None,
        transactions: None,
        orders: Some(orders),
    }
}

/// The message that adds the quantity of an order to the store's own stock.
pub fn add_stock_message(order: Order) -> (m: StoreMessage)
    ensures
        m@.message_type == MessageType::AddStock,
        m@.new_stock == Some(map![order.product() => order.quantity()]),
        m@.transactions is None,
        m@.orders is None,
{
    let mut stock: Stock = HashMap::new();
    stock.insert(order.get_product(), order.get_qty());
    proof {
        assert(stock@ =~= map![order.product() => order.quantity()]);
    }
    StoreMessage {
        message_type: MessageType::AddStock,
        new_stock: Some(stock),
        transactions: None,
        orders: None,
    }
}

/// What the store's command loop does for a command.
#[derive(Debug)]
pub enum CommandAction {
    /// Shut the network down and leave the loop.
    Shutdown,
    /// Bring the network up.
    NetUp,
    /// Bring the network down.
    NetDown,
    /// Send this message to the store.
    ToStore(StoreMessage),
    /// Read the orders of this file and sell them from the local stock.
    SellFromFile(String),
}

/// Decides what the command loop does for a command: a sale or new stock becomes a message
/// to the store, the other commands act on the network.
pub fn command_action(command: Command) -> (a: CommandAction)
    ensures
        match command {
            Command::Shutdown => a is Shutdown,
            Command::NetUp => a is NetUp,
            Command::NetDown => a is NetDown,
            Command::Sell(o) => a matches CommandAction::ToStore(m) && m@.message_type
                == MessageType::LocalRequest && m@.orders == Some(seq![o]) && m@.new_stock is None
                && m@.transactions is None,
            Command::SellFromFile(f) => a matches CommandAction::SellFromFile(p) && p@ == f@,
            Command::AddStock(o) => a matches CommandAction::ToStore(m) && m@.message_type
                == MessageType::AddStock && m@.new_stock == Some(map![o.product() => o.quantity()])
                && m@.orders is None && m@.transactions is None,
        },
{
    match command {
        Command::Shutdown => CommandAction::Shutdown,
        Command::NetUp => CommandAction::NetUp,
        Command::NetDown => CommandAction::NetDown,
        Command::Sell(o) => {
            let mut v: Vec<Order> = Vec::new();
            v.push(o);
            proof {
                assert(v@ =~= seq![o]);
            }
            CommandAction::ToStore(local_request_message(v))
        },
        Command::SellFromFile(f) => CommandAction::SellFromFile(f),
        Command::AddStock(o) => CommandAction::ToStore(add_stock_message(o)),
    }
}

} // verus!
