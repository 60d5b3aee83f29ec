# nanodns

A minimal DNS server for small local networks, without dependencies.

It listens for UDP queries, answers for the local zone (the router, static
records, DHCP leases), sinkholes blocked domains, forwards everything else to
upstream servers, and can cache their replies or answer every address query with
one address (captive mode).

## Layout

- `src/` is the logic, proved with Verus. It touches neither sockets nor files:
  the resolver says what is to be done next (reply, look at a file, ask upstream)
  and is told what came of it.
- `app/` is the program around it: arguments, files, UDP sockets and threads.
- `tests/` runs the library on concrete values.

## What is proved

Each public function states its result exactly, over the views of its types.
Functions that read a clock say that the result is the one for some moment; beside
each stands one that takes the moment and is exact. Properties that span calls
are the proof functions named `law_...`, among them:

- a name that is written into a packet is read back, and a response holds the id
  and the question of its query;
- a blocked name is never forwarded, and no address query in the local zone is
  (outside captive mode);
- local names win over the list of blocked domains, and a lease that has expired
  is as good as none;
- a cached reply is found, under the new id, until it expires, and the cache never
  exceeds its limit;
- a file is looked at once every two seconds at most.

## What is trusted

`String::push`, and the four functions of `std::time` that read the clocks. Of the
clocks nothing is claimed.
