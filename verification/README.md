# pkg

A package-manager front end for Linux: one command line (`pkg install|remove|update|search|list|version`)
for apt, pacman, yay, dnf, zypper and flatpak.

The library (`src/`) holds the logic, verified with Verus:

- `manager`: the known managers and their order, the command each runs for an action, the
  priority of a manager on a distribution, and the reading of search output, installed checks
  and installed lists;
- `ranking`, `parser`, `language`: package categories, language tags and bonuses, fuzzy
  scores, the system language;
- `search`: search hits, merging the hits of several managers, the cache of finished searches;
- `sort`: a stable sort with a proved contract, and the ranking of hits for the user;
- `cli`: the decisions of the command line tool;
- `text`: splitting, trimming, searching and ordering text.

`app/` runs the programs, asks the user (dialoguer) and reads the environment.
