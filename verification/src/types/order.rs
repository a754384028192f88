//! Orders, their requests and their fills.
use vstd::prelude::*;
use vstd::string::*;

use crate::text::{decimal_string, fixed_string, push_decimal, push_fixed};

verus! {

#[derive(Debug, Clone, Copy, PartialEq, Eq, Hash, Structural)]
pub struct OrderId(pub u64);

/// Displayed form of an order id, `OID-<n>`.
pub open spec fn order_id_text(id: OrderId) -> Seq<char> {
    "OID-"@ + decimal_string(id.0 as nat)
}

impl OrderId {
    /// Displayed form, `OID-<n>`.
    pub fn to_string(&self) -> (r: String)
        ensures
            r@ == order_id_text(*self),
    {
        let mut s = String::from_str("OID-");
        push_decimal(&mut s, self.0);
        s
    }
}

#[derive(Debug, Clone, Copy, PartialEq, Eq, Structural)]
pub enum OrderSide {
    Buy,
    Sell,
}

/// Displayed form of a side, `BUY` or `SELL`.
pub open spec fn side_text(side: OrderSide) -> Seq<char> {
    match side {
        OrderSide::Buy => "BUY"@,
        OrderSide::Sell => "SELL"@,
    }
}

impl OrderSide {
    /// Displayed form, `BUY` or `SELL`.
    pub fn to_string(&self) -> (r: String)
        ensures
            r@ == side_text(*self),
    {
        match self {
            OrderSide::Buy => String::from_str("BUY"),
            OrderSide::Sell => String::from_str("SELL"),
        }
    }
}

#[derive(Debug, Clone, Copy, PartialEq, Eq, Structural)]
pub enum OrderType {
    Market,
    Limit,
}

/// Displayed form of an order type, `MARKET` or `LIMIT`.
pub open spec fn order_type_text(t: OrderType) -> Seq<char> {
    match t {
        OrderType::Market => "MARKET"@,
        OrderType::Limit => "LIMIT"@,
    }
}

impl OrderType {
    /// Displayed form, `MARKET` or `LIMIT`.
    pub fn to_string(&self) -> (r: String)
        ensures
            r@ == order_type_text(*self),
    {
        match self {
            OrderType::Market => String::from_str("MARKET"),
            OrderType::Limit => String::from_str("LIMIT"),
        }
    }
}

/// What a strategy asks for. `price` and `size` are in fixed-point units;
/// `price` is `None` for a market order.
#[derive(Debug, Clone)]
pub struct OrderRequest {
    pub asset_id: String,
    pub side: OrderSide,
    pub order_type: OrderType,
    pub price: Option<u64>,
    pub size: u64,
}

/// An order request with its asset taken by its characters.
pub struct OrderRequestView {
    pub asset_id: Seq<char>,
    pub side: OrderSide,
    pub order_type: OrderType,
    pub price: Option<u64>,
    pub size: u64,
}

impl View for OrderRequest {
    type V = OrderRequestView;

    open spec fn view(&self) -> OrderRequestView {
        OrderRequestView {
            asset_id: self.asset_id@,
            side: self.side,
            order_type: self.order_type,
            price: self.price,
            size: self.size,
        }
    }
}

impl OrderRequest {
    /// A copy of the request.
    pub fn duplicate(&self) -> (r: Self)
        ensures
            r == *self,
    {
        OrderRequest {
            asset_id: self.asset_id.clone(),
            side: self.side,
            order_type: self.order_type,
            price: self.price,
            size: self.size,
        }
    }
}

/// Displayed form of a request:
/// `<side> <type> <asset> @ <price with 4 decimals, or MKT> sz=<size with 4 decimals>`.
pub open spec fn request_text(r: OrderRequestView) -> Seq<char> {
    side_text(r.side) + " "@ + order_type_text(r.order_type) + " "@ + r.asset_id + " @ "@ + match r.price {
        Some(p) => fixed_string(p as nat, 4),
        None => "MKT"@,
    } + " sz="@ + fixed_string(r.size as nat, 4)
}

impl OrderRequest {
    /// Displayed form (see `request_text`).
    pub fn to_string(&self) -> (r: String)
        ensures
            r@ == request_text(self@),
    {
        let mut s = String::new();
        s.append(self.side.to_string().as_str());
        s.append(" ");
        s.append(self.order_type.to_string().as_str());
        s.append(" ");
        s.append(self.asset_id.as_str());
        s.append(" @ ");
        match self.price {
            Some(p) => push_fixed(&mut s, p, 4),
            None => s.append("MKT"),
        }
        s.append(" sz=");
        push_fixed(&mut s, self.size, 4);
        assert(s@ =~= request_text(self@));
        s
    }
}

pub open spec fn requests_view(v: Seq<OrderRequest>) -> Seq<OrderRequestView> {
    v.map_values(|r: OrderRequest| r@)
}

#[derive(Debug, Clone, Copy, PartialEq, Eq, Structural)]
pub enum OrderStatus {
    Pending,
    Filled,
    Rejected,
    Cancelled,
}

/// An order as the engine tracks it; `created_at` is a reading of the
/// engine's monotonic clock in nanoseconds.
#[derive(Debug, Clone)]
pub struct Order {
    pub id: OrderId,
    pub request: OrderRequest,
    pub status: OrderStatus,
    pub created_at: u64,
}

/// Displayed form of an order: `[<id>] <request>`.
pub open spec fn order_text(o: Order) -> Seq<char> {
    "["@ + order_id_text(o.id) + "] "@ + request_text(o.request@)
}

impl Order {
    /// Displayed form (see `order_text`).
    pub fn to_string(&self) -> (r: String)
        ensures
            r@ == order_text(*self),
    {
        let mut s = String::from_str("[");
        s.append(self.id.to_string().as_str());
        s.append("] ");
        s.append(self.request.to_string().as_str());
        assert(s@ =~= order_text(*self));
        s
    }

    /// A copy of the order.
    pub fn duplicate(&self) -> (r: Self)
        ensures
            r == *self,
    {
        Order {
            id: self.id,
            request: self.request.duplicate(),
            status: self.status,
            created_at: self.created_at,
        }
    }
}

/// An execution of an order. `price` and `size` are in fixed-point units;
/// `filled_at` is a reading of the engine's monotonic clock in nanoseconds.
#[derive(Debug, Clone)]
pub struct Fill {
    pub order_id: OrderId,
    pub asset_id: String,
    pub side: OrderSide,
    pub price: u64,
    pub size: u64,
    pub filled_at: u64,
}

/// Displayed form of a fill:
/// `Fill <id> <side> <asset> @ <price with 4 decimals> sz=<size with 4 decimals>`.
pub open spec fn fill_text(f: Fill) -> Seq<char> {
    "Fill "@ + order_id_text(f.order_id) + " "@ + side_text(f.side) + " "@ + f.asset_id@ + " @ "@
        + fixed_string(f.price as nat, 4) + " sz="@ + fixed_string(f.size as nat, 4)
}

impl Fill {
    /// Displayed form (see `fill_text`).
    pub fn to_string(&self) -> (r: String)
        ensures
            r@ == fill_text(*self),
    {
        let mut s = String::from_str("Fill ");
        s.append(self.order_id.to_string().as_str());
        s.append(" ");
        s.append(self.side.to_string().as_str());
        s.append(" ");
        s.append(self.asset_id.as_str());
        s.append(" @ ");
        push_fixed(&mut s, self.price, 4);
        s.append(" sz=");
        push_fixed(&mut s, self.size, 4);
        assert(s@ =~= fill_text(*self));
        s
    }
}

} // verus!
