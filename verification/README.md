# orderbook_challenge

Connects to the WebSocket feeds of Bitstamp and Binance, merges their order
books for one currency pair and publishes the spread, the ten best bids and
the ten best asks as a gRPC stream.

- `src/` is the library, verified with Verus: decimals (`decimal`), the order
  of a book (`book_order`), the books and their merge (`order_collection`),
  the feeds' messages (`binance`, `bitstamp`, `websocket`, `symbol`), and the
  connector's decisions (`orders`).
- `app/` is the program around it: the connections, the JSON decoding, the
  gRPC service and client, and the loop that carries out the connector's
  decisions.
- `tests/` runs the library on concrete books.
