use vstd::prelude::*;
use vstd::string::StringSliceAdditionalSpecFns;

verus! {

/// The status line and the headers of the page response, up to its length.
pub const ROOT_HEAD: &'static str = "HTTP/1.1 200 OK\r\nContent-Type: text/html; charset=UTF-8\r\nContent-Length: ";

/// The headers of the page response that follow its length.
pub const ROOT_TAIL: &'static str = "\r\nConnection: keep-alive\r\n\r\n";

/// The response to a request for anything but the page or the chat endpoint.
pub const NOT_FOUND: &'static str = "HTTP/1.1 404 Not Found\r\nContent-Length: 0\r\nConnection: close\r\n\r\n";

/// The HTML page served at the root path.
pub const ROOT_BODY: &'static str = "<!doctype html>
<html>
<head>
    <meta content='text/html;charset=utf-8' http-equiv='Content-Type' />
    <meta content='utf-8' http-equiv='encoding' />
    <meta name='viewport' content='width=device-width, initial-scale=0.5, maximum-scale=0.5, user-scalable=0' />
    <meta name='apple-mobile-web-app-capable' content='yes' />
    <meta name='apple-mobile-web-app-status-bar-style' content='black' />
    <title>Web Socket Demo</title>
    <style type='text/css'>
        * { margin: 0; padding: 0; box-sizing: border-box; }
        body { font: 13px Helvetica, Arial; }
        form { background: #000; padding: 3px; position: fixed; bottom: 0; width: 100%; }
        form input { border: 0; padding: 10px; width: 90%; margin-right: .5%; }
        form button { width: 9%; background: rgb(130, 200, 255); border: none; padding: 10px; }
        #messages { list-style-type: none; margin: 0; padding: 0; }
        #messages li { padding: 5px 10px; }
        #messages li:nth-child(odd) { background: #eee; }
    </style>
</head>
<body>
    <ul id='messages'></ul>
    <form action=''>
    <input id='txtBox' autocomplete='off' /><button>Send</button>
    </form>
    <script type='text/javascript' src='http://code.jquery.com/jquery-1.11.1.js' ></script>
    <script type='text/javascript'>
        var CONNECTION;
        window.onload = function () {
            // open the connection to the Web Socket server
            // CONNECTION = new WebSocket('ws://localhost:1337/chat');
			CONNECTION = new WebSocket('ws://' + location.host + '/chat');

            // When the connection is open
            CONNECTION.onopen = function () {
                $('#messages').append($('<li>').text('Connection opened'));
            };

            // when the connection is closed by the server
            CONNECTION.onclose = function () {
                $('#messages').append($('<li>').text('Connection closed'));
            };

            // Log errors
            CONNECTION.onerror = function (e) {
                console.log('An error occured');
            };

            // Log messages from the server
            CONNECTION.onmessage = function (e) {
                $('#messages').append($('<li>').text(e.data));
            };
        };

		$(window).on('beforeunload', function(){
			CONNECTION.close();
		});

        // when we press the Send button, send the text to the server
        $('form').submit(function(){
            CONNECTION.send($('#txtBox').val());
            $('#txtBox').val('');
            return false;
        });
    </script>
</body>
</html>";

/// The ASCII decimal digits of `n`, most significant first, without leading zeros.
pub open spec fn decimal(n: nat) -> Seq<u8>
    decreases n,
{
    if n < 10 {
        seq![(48 + n) as u8]
    } else {
        decimal(n / 10).push((48 + n % 10) as u8)
    }
}

/// The whole page response: status, headers with the body's exact length, body.
pub open spec fn root_page_bytes() -> Seq<u8> {
    ROOT_HEAD.spec_bytes() + decimal(ROOT_BODY.spec_bytes().len()) + ROOT_TAIL.spec_bytes()
        + ROOT_BODY.spec_bytes()
}

/// Appends the decimal digits of `n`.
pub fn push_decimal(out: &mut Vec<u8>, n: usize)
    ensures
        final(out)@ == old(out)@ + decimal(n as nat),
    decreases n,
{
    let ghost start = out@;
    if n >= 10 {
        push_decimal(out, n / 10);
    }
    let digit: u8 = (n % 10) as u8;
    out.push(48 + digit);
    assert(out@ =~= start + decimal(n as nat));
}

/// Appends `bytes`.
pub(crate) fn push_bytes(out: &mut Vec<u8>, bytes: &[u8])
    ensures
        final(out)@ == old(out)@ + bytes@,
{
    let ghost start = out@;
    let mut i: usize = 0;
    while i < bytes.len()
        invariant
            i <= bytes@.len(),
            out@ == start + bytes@.subrange(0, i as int),
        decreases bytes@.len() - i,
    {
        out.push(bytes[i]);
        i = i + 1;
        assert(out@ =~= start + bytes@.subrange(0, i as int));
    }
    assert(bytes@.subrange(0, i as int) =~= bytes@);
}

/// The page response, with a `Content-Length` computed from the body.
pub fn root_page() -> (r: Vec<u8>)
    ensures
        r@ == root_page_bytes(),
{
    let mut out: Vec<u8> = Vec::new();
    push_bytes(&mut out, ROOT_HEAD.as_bytes());
    let body = ROOT_BODY.as_bytes();
    push_decimal(&mut out, body.len());
    push_bytes(&mut out, ROOT_TAIL.as_bytes());
    push_bytes(&mut out, body);
    out
}

/// The response for a path that names nothing served here.
pub fn not_found() -> (r: Vec<u8>)
    ensures
        r@ == NOT_FOUND.spec_bytes(),
{
    let mut out: Vec<u8> = Vec::new();
    push_bytes(&mut out, NOT_FOUND.as_bytes());
    out
}

} // verus!
